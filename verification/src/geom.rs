//! Points and axis-aligned rectangles in a bounded, wrap-around world.
//!
//! Coordinates are integers. The world is the half-open box
//! `[0, width) x [0, height)`; motion past an edge wraps to the opposite
//! edge, so a coordinate is always reduced modulo the world bound into
//! `[0, bound)`.

use vstd::prelude::*;
use vstd::arithmetic::div_mod::{
    lemma_fundamental_div_mod, lemma_mod_multiples_vanish, lemma_small_mod,
};

verus! {

/// Scalar coordinate type of the game world.
pub type GameInt = i64;

/// Largest world dimension the library admits; keeps wrap and overlap
/// arithmetic far away from `i64` overflow.
pub const MAX_DIM: GameInt = 0x1000_0000;

/// Largest magnitude a single movement delta may have.
pub const MAX_DELTA: GameInt = 0x1000_0000_0000;

/// Largest velocity magnitude, per axis, an entity may carry.
pub const MAX_SPEED: GameInt = 0x100_0000;

/// Largest time step one tick may integrate over.
pub const MAX_DT: GameInt = 0x10_0000;

/// Mathematical wrap of `x + d` into `[0, w)`; `%` here is Euclidean.
pub open spec fn wrap1(x: int, d: int, w: int) -> int {
    (x + d) % w
}

/// Wraps `x + d` into `[0, w)`, with the result of the Euclidean remainder
/// even for negative deltas.
pub fn wrap_coord(x: GameInt, d: GameInt, w: GameInt) -> (r: GameInt)
    requires
        0 < w <= MAX_DIM,
        0 <= x < w,
        -MAX_DELTA <= d <= MAX_DELTA,
    ensures
        r == wrap1(x as int, d as int, w as int),
        0 <= r < w,
{
    let m: GameInt = if d >= 0 { d % w } else { -((-d) % w) };
    let t: GameInt = x + m;
    let r: GameInt = if t < 0 { t + w } else if t >= w { t - w } else { t };
    proof {
        let xi = x as int;
        let di = d as int;
        let wi = w as int;
        // d - m is a multiple of w, so x + m and x + d agree modulo w.
        if di >= 0 {
            lemma_fundamental_div_mod(di, wi);
            assert(di - m == wi * (di / wi));
            lemma_mod_multiples_vanish(di / wi, xi + m, wi);
        } else {
            lemma_fundamental_div_mod(-di, wi);
            let q = (-di) / wi;
            assert(di - m == -(wi * q));
            assert(-(wi * q) == wi * (-q)) by (nonlinear_arith);
            lemma_mod_multiples_vanish(-q, xi + m, wi);
        }
        assert((xi + di) % wi == (xi + m) % wi);
        // r is x + m shifted by a multiple of w into [0, w).
        if t < 0 {
            lemma_mod_multiples_vanish(1, t as int, wi);
        } else if t >= w {
            lemma_mod_multiples_vanish(-1, t as int, wi);
        }
        assert((r as int) % wi == (t as int) % wi);
        lemma_small_mod(r as nat, wi as nat);
    }
    r
}

/// Adding a full world width (or height) to a coordinate wraps back to the
/// coordinate itself, so a move by the world size equals a move by zero.
pub proof fn lemma_wrap_full_period(x: int, w: int)
    requires
        0 < w,
        0 <= x < w,
    ensures
        wrap1(x, w, w) == x,
        wrap1(x, 0, w) == x,
{
    lemma_mod_multiples_vanish(1, x, w);
    lemma_small_mod(x as nat, w as nat);
}

/// Wrapping stays put when the unwrapped sum already lies inside the world.
pub proof fn lemma_wrap_in_range(x: int, d: int, w: int)
    requires
        0 < w,
        0 <= x + d < w,
    ensures
        wrap1(x, d, w) == x + d,
{
    lemma_small_mod((x + d) as nat, w as nat);
}

/// A 2-D coordinate or displacement.
#[derive(Clone, Copy, Debug, PartialEq, Eq, Structural)]
pub struct Point {
    pub x: GameInt,
    pub y: GameInt,
}

impl Point {
    pub fn new(x: GameInt, y: GameInt) -> (p: Point)
        ensures
            p == (Point { x, y }),
    {
        Point { x, y }
    }

    pub open spec fn spec_origin() -> Point {
        Point { x: 0, y: 0 }
    }

    pub fn origin() -> (p: Point)
        ensures
            p == Point::spec_origin(),
    {
        Point { x: 0, y: 0 }
    }

    pub fn is_below(self, other: Point) -> (r: bool)
        ensures
            r == (self.y > other.y),
    {
        self.y > other.y
    }

    pub fn is_right_of(self, other: Point) -> (r: bool)
        ensures
            r == (self.x > other.x),
    {
        self.x > other.x
    }

    pub fn is_origin(self) -> (r: bool)
        ensures
            r == (self == Point::spec_origin()),
    {
        self.x == 0 && self.y == 0
    }

    pub fn at_x(self, x: GameInt) -> (p: Point)
        ensures
            p == (Point { x, y: self.y }),
    {
        Point { x, y: self.y }
    }

    pub fn at_y(self, y: GameInt) -> (p: Point)
        ensures
            p == (Point { x: self.x, y }),
    {
        Point { x: self.x, y }
    }

    /// Element-wise maximum.
    pub fn max(self, other: Point) -> (p: Point)
        ensures
            p.x == if self.x >= other.x { self.x } else { other.x },
            p.y == if self.y >= other.y { self.y } else { other.y },
    {
        Point {
            x: if self.x >= other.x { self.x } else { other.x },
            y: if self.y >= other.y { self.y } else { other.y },
        }
    }

    /// Element-wise minimum.
    pub fn min(self, other: Point) -> (p: Point)
        ensures
            p.x == if self.x <= other.x { self.x } else { other.x },
            p.y == if self.y <= other.y { self.y } else { other.y },
    {
        Point {
            x: if self.x <= other.x { self.x } else { other.x },
            y: if self.y <= other.y { self.y } else { other.y },
        }
    }

    /// Element-wise magnitude of `self` carrying the sign of `sign`;
    /// a zero or positive sign component counts as positive.
    pub fn copysign(self, sign: Point) -> (p: Point)
        requires
            -MAX_DELTA <= self.x <= MAX_DELTA,
            -MAX_DELTA <= self.y <= MAX_DELTA,
        ensures
            p.x == if sign.x >= 0 { abs1(self.x as int) } else { -abs1(self.x as int) },
            p.y == if sign.y >= 0 { abs1(self.y as int) } else { -abs1(self.y as int) },
    {
        let ax: GameInt = if self.x >= 0 { self.x } else { -self.x };
        let ay: GameInt = if self.y >= 0 { self.y } else { -self.y };
        Point {
            x: if sign.x >= 0 { ax } else { -ax },
            y: if sign.y >= 0 { ay } else { -ay },
        }
    }

    /// Element-wise absolute value.
    pub fn abs(self) -> (p: Point)
        requires
            -MAX_DELTA <= self.x <= MAX_DELTA,
            -MAX_DELTA <= self.y <= MAX_DELTA,
        ensures
            p.x == abs1(self.x as int),
            p.y == abs1(self.y as int),
    {
        Point {
            x: if self.x >= 0 { self.x } else { -self.x },
            y: if self.y >= 0 { self.y } else { -self.y },
        }
    }

    /// Element-wise sum.
    pub fn plus(self, other: Point) -> (p: Point)
        requires
            i64::MIN <= self.x + other.x <= i64::MAX,
            i64::MIN <= self.y + other.y <= i64::MAX,
        ensures
            p.x == self.x + other.x,
            p.y == self.y + other.y,
    {
        Point { x: self.x + other.x, y: self.y + other.y }
    }

    /// Element-wise difference.
    pub fn minus(self, other: Point) -> (p: Point)
        requires
            i64::MIN <= self.x - other.x <= i64::MAX,
            i64::MIN <= self.y - other.y <= i64::MAX,
        ensures
            p.x == self.x - other.x,
            p.y == self.y - other.y,
    {
        Point { x: self.x - other.x, y: self.y - other.y }
    }

    /// Both components scaled by `k`.
    pub fn times(self, k: GameInt) -> (p: Point)
        requires
            i64::MIN <= self.x * k <= i64::MAX,
            i64::MIN <= self.y * k <= i64::MAX,
        ensures
            p.x == self.x * k,
            p.y == self.y * k,
    {
        Point { x: self.x * k, y: self.y * k }
    }
}

/// Sum clamped into the representable range.
pub open spec fn sat_add_spec(a: int, b: int) -> int {
    if a + b > i64::MAX {
        i64::MAX as int
    } else if a + b < i64::MIN {
        i64::MIN as int
    } else {
        a + b
    }
}

/// Saturating addition on coordinates.
pub fn sat_add(a: GameInt, b: GameInt) -> (r: GameInt)
    ensures
        r == sat_add_spec(a as int, b as int),
{
    if b >= 0 {
        if a > i64::MAX - b {
            i64::MAX
        } else {
            a + b
        }
    } else {
        if a < i64::MIN - b {
            i64::MIN
        } else {
            a + b
        }
    }
}

/// Absolute value of a mathematical integer.
pub open spec fn abs1(v: int) -> int {
    if v >= 0 {
        v
    } else {
        -v
    }
}

/// An axis-aligned rectangle: top-left corner plus extent. The box is
/// half-open, covering integer points `[x, x + width) x [y, y + height)`
/// before wrap segmentation.
#[derive(Clone, Copy, Debug, PartialEq, Eq, Structural)]
pub struct Rectangle {
    pub top_left: Point,
    pub width: GameInt,
    pub height: GameInt,
}

impl Rectangle {
    pub fn new(top_left: Point, width: GameInt, height: GameInt) -> (r: Rectangle)
        ensures
            r == (Rectangle { top_left, width, height }),
    {
        Rectangle { top_left, width, height }
    }

    /// The rectangle fits the world `[0, w) x [0, h)`: its corner is inside
    /// and its extent is positive and no larger than one world period.
    pub open spec fn valid_for(self, w: int, h: int) -> bool {
        &&& 0 <= self.top_left.x < w
        &&& 0 <= self.top_left.y < h
        &&& 0 < self.width <= w
        &&& 0 < self.height <= h
    }

    /// The rectangle lies entirely inside the world, so wrap segmentation
    /// leaves it in one piece.
    pub open spec fn interior_of(self, w: int, h: int) -> bool {
        &&& self.valid_for(w, h)
        &&& self.top_left.x + self.width <= w
        &&& self.top_left.y + self.height <= h
    }

    /// The integer point `(px, py)` lies in the (unwrapped) box.
    pub open spec fn contains_pt(self, px: int, py: int) -> bool {
        &&& self.top_left.x <= px < self.top_left.x + self.width
        &&& self.top_left.y <= py < self.top_left.y + self.height
    }

    pub open spec fn spec_bottom_right(self) -> Point {
        Point { x: (self.top_left.x + self.width) as GameInt, y: (self.top_left.y + self.height) as GameInt }
    }

    pub fn bottom_right(&self) -> (p: Point)
        requires
            i64::MIN <= self.top_left.x + self.width <= i64::MAX,
            i64::MIN <= self.top_left.y + self.height <= i64::MAX,
        ensures
            p.x == self.top_left.x + self.width,
            p.y == self.top_left.y + self.height,
    {
        Point { x: self.top_left.x + self.width, y: self.top_left.y + self.height }
    }

    /// Where the rectangle's corner lands after a wrapped translation.
    pub open spec fn spec_moved(self, diff: Point, w: int, h: int) -> Rectangle {
        Rectangle {
            top_left: Point {
                x: wrap1(self.top_left.x as int, diff.x as int, w) as GameInt,
                y: wrap1(self.top_left.y as int, diff.y as int, h) as GameInt,
            },
            width: self.width,
            height: self.height,
        }
    }

    /// Translates the rectangle by `diff`, wrapping each axis into the world
    /// `[0, width) x [0, height)`.
    pub fn move_(&mut self, diff: Point, width: GameInt, height: GameInt)
        requires
            0 < width <= MAX_DIM,
            0 < height <= MAX_DIM,
            old(self).valid_for(width as int, height as int),
            -MAX_DELTA <= diff.x <= MAX_DELTA,
            -MAX_DELTA <= diff.y <= MAX_DELTA,
        ensures
            *final(self) == old(self).spec_moved(diff, width as int, height as int),
            final(self).valid_for(width as int, height as int),
    {
        self.top_left.x = wrap_coord(self.top_left.x, diff.x, width);
        self.top_left.y = wrap_coord(self.top_left.y, diff.y, height);
    }

    /// The overlap box of two unwrapped rectangles, if it has positive extent
    /// on both axes.
    pub fn overlap(&self, other: &Rectangle) -> (r: Option<Rectangle>)
        requires
            -MAX_DIM <= self.top_left.x <= MAX_DIM,
            -MAX_DIM <= self.top_left.y <= MAX_DIM,
            0 < self.width <= MAX_DIM,
            0 < self.height <= MAX_DIM,
            -MAX_DIM <= other.top_left.x <= MAX_DIM,
            -MAX_DIM <= other.top_left.y <= MAX_DIM,
            0 < other.width <= MAX_DIM,
            0 < other.height <= MAX_DIM,
        ensures
            match r {
                Some(o) => {
                    &&& o == self.spec_overlap_box(*other)
                    &&& o.width > 0
                    &&& o.height > 0
                    &&& forall|px: int, py: int|
                        o.contains_pt(px, py) <==> (self.contains_pt(px, py)
                            && other.contains_pt(px, py))
                },
                None => forall|px: int, py: int|
                    !(self.contains_pt(px, py) && other.contains_pt(px, py)),
            },
            r is Some <==> (self.spec_overlap_box(*other).width > 0
                && self.spec_overlap_box(*other).height > 0),
    {
        let self_bottom_right = self.bottom_right();
        let other_bottom_right = other.bottom_right();
        if self.top_left.x < other_bottom_right.x && self.top_left.y < other_bottom_right.y
            && other.top_left.x < self_bottom_right.x && other.top_left.y < self_bottom_right.y {
            let x: GameInt = if self.top_left.x >= other.top_left.x {
                self.top_left.x
            } else {
                other.top_left.x
            };
            let y: GameInt = if self.top_left.y >= other.top_left.y {
                self.top_left.y
            } else {
                other.top_left.y
            };
            let rx: GameInt = if self_bottom_right.x <= other_bottom_right.x {
                self_bottom_right.x
            } else {
                other_bottom_right.x
            };
            let ry: GameInt = if self_bottom_right.y <= other_bottom_right.y {
                self_bottom_right.y
            } else {
                other_bottom_right.y
            };
            Some(Rectangle { top_left: Point { x, y }, width: rx - x, height: ry - y })
        } else {
            None
        }
    }

    /// The intersection box of two unwrapped rectangles, possibly with
    /// non-positive extent when they do not meet on some axis.
    pub open spec fn spec_overlap_box(self, other: Rectangle) -> Rectangle {
        let x = max1(self.top_left.x as int, other.top_left.x as int);
        let y = max1(self.top_left.y as int, other.top_left.y as int);
        let rx = min1(
            self.top_left.x + self.width,
            other.top_left.x + other.width,
        );
        let ry = min1(
            self.top_left.y + self.height,
            other.top_left.y + other.height,
        );
        Rectangle {
            top_left: Point { x: x as GameInt, y: y as GameInt },
            width: (rx - x) as GameInt,
            height: (ry - y) as GameInt,
        }
    }
}

/// Membership of `p` in the cyclic interval that starts at `start` and has
/// length `len`, inside a world of size `period`; `p` and `start` are
/// canonical coordinates in `[0, period)`.
pub open spec fn cyc_in(p: int, start: int, len: int, period: int) -> bool {
    if p >= start {
        p - start < len
    } else {
        p - start + period < len
    }
}

/// Some segment of the sequence contains the point.
pub open spec fn seg_covers(segs: Seq<Rectangle>, px: int, py: int) -> bool {
    exists|i: int| 0 <= i < segs.len() && #[trigger] segs[i].contains_pt(px, py)
}

/// Two unwrapped boxes share no point: they miss each other on some axis.
pub open spec fn boxes_disjoint(a: Rectangle, b: Rectangle) -> bool {
    ||| a.top_left.x + a.width <= b.top_left.x
    ||| b.top_left.x + b.width <= a.top_left.x
    ||| a.top_left.y + a.height <= b.top_left.y
    ||| b.top_left.y + b.height <= a.top_left.y
}

impl Rectangle {
    /// The wrapped footprint of the rectangle contains the world point
    /// `(px, py)`: each axis reaches the point going rightwards/downwards
    /// from the corner, wrapping at the world edge.
    pub open spec fn wrapped_contains(self, w: int, h: int, px: int, py: int) -> bool {
        &&& 0 <= px < w
        &&& 0 <= py < h
        &&& cyc_in(px, self.top_left.x as int, self.width as int, w)
        &&& cyc_in(py, self.top_left.y as int, self.height as int, h)
    }

    /// The clipped pieces the rectangle falls into once the world edges cut
    /// it: the canonical piece last, preceded by the pieces that wrapped
    /// around the right edge, the bottom edge, and both.
    pub open spec fn spec_segments(self, w: int, h: int) -> Seq<Rectangle> {
        let x = self.top_left.x as int;
        let y = self.top_left.y as int;
        let main = Rectangle {
            top_left: self.top_left,
            width: min1(self.width as int, w - x) as GameInt,
            height: min1(self.height as int, h - y) as GameInt,
        };
        let right = Rectangle {
            top_left: Point { x: 0, y: self.top_left.y },
            width: (x + self.width - w) as GameInt,
            height: min1(self.height as int, h - y) as GameInt,
        };
        let bottom = Rectangle {
            top_left: Point { x: self.top_left.x, y: 0 },
            width: min1(self.width as int, w - x) as GameInt,
            height: (y + self.height - h) as GameInt,
        };
        let corner = Rectangle {
            top_left: Point { x: 0, y: 0 },
            width: (x + self.width - w) as GameInt,
            height: (y + self.height - h) as GameInt,
        };
        if x + self.width > w && y + self.height > h {
            seq![corner, bottom, right, main]
        } else if x + self.width > w {
            seq![right, main]
        } else if y + self.height > h {
            seq![bottom, main]
        } else {
            seq![main]
        }
    }

    /// The clipped pieces of the rectangle against the world whose
    /// bottom-right corner is `bottom_right`.
    pub fn segments(&self, bottom_right: Point) -> (segs: Vec<Rectangle>)
        requires
            0 < bottom_right.x <= MAX_DIM,
            0 < bottom_right.y <= MAX_DIM,
            self.valid_for(bottom_right.x as int, bottom_right.y as int),
        ensures
            segs@ == self.spec_segments(bottom_right.x as int, bottom_right.y as int),
    {
        let w = bottom_right.x;
        let h = bottom_right.y;
        let x = self.top_left.x;
        let y = self.top_left.y;
        let cw: GameInt = if self.width <= w - x { self.width } else { w - x };
        let ch: GameInt = if self.height <= h - y { self.height } else { h - y };
        let main = Rectangle { top_left: self.top_left, width: cw, height: ch };
        let mut segs: Vec<Rectangle> = Vec::new();
        if x + self.width > w && y + self.height > h {
            segs.push(Rectangle {
                top_left: Point { x: 0, y: 0 },
                width: x + self.width - w,
                height: y + self.height - h,
            });
            segs.push(Rectangle {
                top_left: Point { x, y: 0 },
                width: cw,
                height: y + self.height - h,
            });
            segs.push(Rectangle {
                top_left: Point { x: 0, y },
                width: x + self.width - w,
                height: ch,
            });
        } else if x + self.width > w {
            segs.push(Rectangle {
                top_left: Point { x: 0, y },
                width: x + self.width - w,
                height: ch,
            });
        } else if y + self.height > h {
            segs.push(Rectangle {
                top_left: Point { x, y: 0 },
                width: cw,
                height: y + self.height - h,
            });
        }
        segs.push(main);
        proof {
            assert(segs@ =~= self.spec_segments(bottom_right.x as int, bottom_right.y as int));
        }
        segs
    }
}

/// Every segment lies wholly inside the world and has positive extent.
pub proof fn lemma_segments_valid(r: Rectangle, w: int, h: int)
    requires
        0 < w,
        0 < h,
        r.valid_for(w, h),
    ensures
        forall|i: int| 0 <= i < r.spec_segments(w, h).len()
            ==> (#[trigger] r.spec_segments(w, h)[i]).interior_of(w, h),
{
}

/// The segments exactly tile the wrapped footprint: a world point lies in
/// some segment if and only if the wrapped rectangle contains it.
pub proof fn lemma_segments_cover(r: Rectangle, w: int, h: int, px: int, py: int)
    requires
        0 < w,
        0 < h,
        r.valid_for(w, h),
        0 <= px < w,
        0 <= py < h,
    ensures
        seg_covers(r.spec_segments(w, h), px, py) <==> r.wrapped_contains(w, h, px, py),
{
    let segs = r.spec_segments(w, h);
    if r.wrapped_contains(w, h, px, py) {
        let x = r.top_left.x as int;
        let y = r.top_left.y as int;
        let both = x + r.width > w && y + r.height > h;
        if px >= x && py >= y {
            assert(segs[segs.len() - 1].contains_pt(px, py));
        } else if px >= x {
            // wrapped around the bottom edge only
            if both {
                assert(segs[1].contains_pt(px, py));
            } else {
                assert(segs[0].contains_pt(px, py));
            }
        } else if py >= y {
            // wrapped around the right edge only
            if both {
                assert(segs[2].contains_pt(px, py));
            } else {
                assert(segs[0].contains_pt(px, py));
            }
        } else {
            assert(segs[0].contains_pt(px, py));
        }
    }
    if seg_covers(segs, px, py) {
        let i = choose|i: int| 0 <= i < segs.len() && #[trigger] segs[i].contains_pt(px, py);
        assert(r.wrapped_contains(w, h, px, py));
    }
}

/// Distinct segments of one rectangle never share a point.
pub proof fn lemma_segments_disjoint(r: Rectangle, w: int, h: int)
    requires
        0 < w,
        0 < h,
        r.valid_for(w, h),
    ensures
        forall|i: int, j: int|
            0 <= i < r.spec_segments(w, h).len() && 0 <= j < r.spec_segments(w, h).len()
                && i != j
            ==> boxes_disjoint(
                #[trigger] r.spec_segments(w, h)[i],
                #[trigger] r.spec_segments(w, h)[j],
            ),
{
}

/// Maximum of two mathematical integers.
pub open spec fn max1(a: int, b: int) -> int {
    if a >= b {
        a
    } else {
        b
    }
}

/// Minimum of two mathematical integers.
pub open spec fn min1(a: int, b: int) -> int {
    if a <= b {
        a
    } else {
        b
    }
}

} // verus!
