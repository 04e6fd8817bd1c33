//! Axis-aligned rectangles: map extents and generated rooms.

use vstd::prelude::*;
use vstd::arithmetic::div_mod::lemma_fundamental_div_mod_converse;
use crate::components::Position;

verus! {

/// Largest coordinate a rectangle corner may reach.  Keeps every product
/// `width * height` and every tile index comfortably inside `i32`.
pub const COORD_BOUND: i32 = 16384;

/// A half-open axis-aligned rectangle: `min` inclusive, `max` exclusive.
#[derive(Clone, Copy, PartialEq, Eq, Structural, Debug)]
pub struct Rect {
    pub min: Position,
    pub max: Position,
}

impl Rect {
    /// Well-formed: corners ordered and within the coordinate bound.
    pub open spec fn spec_wf(self) -> bool {
        0 <= self.min.x <= self.max.x <= COORD_BOUND && 0 <= self.min.y <= self.max.y
            <= COORD_BOUND
    }

    pub open spec fn spec_width(self) -> int {
        self.max.x - self.min.x
    }

    pub open spec fn spec_height(self) -> int {
        self.max.y - self.min.y
    }

    pub open spec fn spec_area(self) -> int {
        self.spec_width() * self.spec_height()
    }

    /// Componentwise containment of a position, `min` inclusive and `max`
    /// exclusive.
    pub open spec fn spec_contains(self, p: Position) -> bool {
        self.min.x <= p.x < self.max.x && self.min.y <= p.y < self.max.y
    }

    /// The approximate corner-containment overlap test: does either corner of
    /// `other` fall inside `self`?  Two rectangles can still overlap along an
    /// axis without either corner being contained; that leniency is part of
    /// the room-placement policy.
    pub open spec fn spec_intersect(self, other: Rect) -> bool {
        self.spec_contains(other.min) || self.spec_contains(other.max)
    }

    /// Row-major tile index of `(x, y)` within a rectangle of this width.
    pub open spec fn spec_xy_idx(self, x: int, y: int) -> int {
        y * self.spec_width() + x
    }

    /// X coordinate of the position of row-major tile index `idx`.
    pub open spec fn spec_idx_x(self, idx: int) -> int {
        self.min.x + idx % self.spec_width()
    }

    /// Y coordinate of the position of row-major tile index `idx`.
    pub open spec fn spec_idx_y(self, idx: int) -> int {
        self.min.y + idx / self.spec_width()
    }

    pub fn new(x: i32, y: i32, w: i32, h: i32) -> (r: Rect)
        requires
            0 <= x,
            0 <= y,
            0 <= w,
            0 <= h,
            x + w <= COORD_BOUND,
            y + h <= COORD_BOUND,
        ensures
            r.min == (Position { x, y }),
            r.max == (Position { x: (x + w) as i32, y: (y + h) as i32 }),
            r.spec_wf(),
            r.spec_width() == w,
            r.spec_height() == h,
    {
        let min = Position { x, y };
        Rect { min, max: Position { x: x + w, y: y + h } }
    }

    pub fn width(&self) -> (w: i32)
        requires
            self.spec_wf(),
        ensures
            w == self.spec_width(),
    {
        self.max.x - self.min.x
    }

    pub fn height(&self) -> (h: i32)
        requires
            self.spec_wf(),
        ensures
            h == self.spec_height(),
    {
        self.max.y - self.min.y
    }

    pub fn area(&self) -> (a: i32)
        requires
            self.spec_wf(),
        ensures
            a == self.spec_area(),
            0 <= a <= COORD_BOUND * COORD_BOUND,
    {
        proof {
            lemma_area_bounds(*self);
        }
        (self.max.x - self.min.x) * (self.max.y - self.min.y)
    }

    pub fn contains(&self, position: &Position) -> (r: bool)
        ensures
            r == self.spec_contains(*position),
    {
        self.min.x <= position.x && position.x < self.max.x && self.min.y <= position.y
            && position.y < self.max.y
    }

    pub fn intersect(&self, other: &Rect) -> (r: bool)
        ensures
            r == self.spec_intersect(*other),
    {
        self.contains(&other.min) || self.contains(&other.max)
    }

    /// The center tile; inside the rectangle whenever it is non-degenerate.
    pub fn center(&self) -> (c: (i32, i32))
        requires
            self.spec_wf(),
        ensures
            c.0 == (self.min.x + self.max.x) / 2,
            c.1 == (self.min.y + self.max.y) / 2,
            self.spec_width() > 0 && self.spec_height() > 0 ==> self.spec_contains(
                Position { x: c.0, y: c.1 },
            ),
    {
        ((self.min.x + self.max.x) / 2, (self.min.y + self.max.y) / 2)
    }

    /// Row-major tile index of in-bounds coordinates.
    pub fn xy_idx(&self, x: i32, y: i32) -> (idx: usize)
        requires
            self.spec_wf(),
            0 <= x < self.spec_width(),
            0 <= y < self.spec_height(),
        ensures
            idx == self.spec_xy_idx(x as int, y as int),
            idx < self.spec_area(),
    {
        proof {
            lemma_area_bounds(*self);
            lemma_xy_idx_in_area(*self, x as int, y as int);
        }
        ((y * (self.max.x - self.min.x)) + x) as usize
    }

    /// The position of a row-major tile index.
    pub fn idx_position(&self, idx: usize) -> (p: Position)
        requires
            self.spec_wf(),
            self.spec_width() > 0,
            idx < self.spec_area(),
        ensures
            p.x == self.spec_idx_x(idx as int),
            p.y == self.spec_idx_y(idx as int),
            self.spec_contains(p),
    {
        proof {
            lemma_area_bounds(*self);
            lemma_idx_position_in_rect(*self, idx as int);
        }
        let i = idx as i32;
        let w = self.max.x - self.min.x;
        Position { x: self.min.x + (i % w), y: self.min.y + (i / w) }
    }
}

/// The area of a well-formed rectangle is a product of bounded factors.
pub proof fn lemma_area_bounds(r: Rect)
    requires
        r.spec_wf(),
    ensures
        0 <= r.spec_area() <= COORD_BOUND * COORD_BOUND,
        r.spec_area() == r.spec_width() * r.spec_height(),
{
    let w = r.spec_width();
    let h = r.spec_height();
    assert(0 <= w * h <= COORD_BOUND * COORD_BOUND) by (nonlinear_arith)
        requires
            0 <= w <= COORD_BOUND,
            0 <= h <= COORD_BOUND,
    ;
}

/// In-bounds coordinates give a tile index inside the area.
pub proof fn lemma_xy_idx_in_area(r: Rect, x: int, y: int)
    requires
        r.spec_wf(),
        0 <= x < r.spec_width(),
        0 <= y < r.spec_height(),
    ensures
        0 <= r.spec_xy_idx(x, y) < r.spec_area(),
{
    let w = r.spec_width();
    let h = r.spec_height();
    assert(0 <= y * w + x < w * h) by (nonlinear_arith)
        requires
            0 <= x < w,
            0 <= y < h,
    ;
}

/// A tile index inside the area decodes to a position inside the rectangle.
pub proof fn lemma_idx_position_in_rect(r: Rect, idx: int)
    requires
        r.spec_wf(),
        r.spec_width() > 0,
        0 <= idx < r.spec_area(),
    ensures
        r.min.x <= r.spec_idx_x(idx) < r.max.x,
        r.min.y <= r.spec_idx_y(idx) < r.max.y,
        0 <= idx % r.spec_width() < r.spec_width(),
        0 <= idx / r.spec_width() < r.spec_height(),
{
    let w = r.spec_width();
    let h = r.spec_height();
    assert(0 <= idx % w < w && idx / w >= 0) by (nonlinear_arith)
        requires
            w > 0,
            idx >= 0,
    ;
    assert(idx == w * (idx / w) + idx % w) by {
        vstd::arithmetic::div_mod::lemma_fundamental_div_mod(idx, w);
    }
    assert(idx / w < h) by (nonlinear_arith)
        requires
            w > 0,
            0 <= idx < w * h,
            0 <= idx % w < w,
            idx == w * (idx / w) + idx % w,
    ;
}

/// A tile index is determined by the coordinates it decodes to: decoding is
/// injective on the area of a rectangle anchored at the origin.
pub proof fn lemma_idx_encode_unique(r: Rect, i: int, x: int, y: int)
    requires
        r.spec_wf(),
        r.min.x == 0,
        r.min.y == 0,
        r.spec_width() > 0,
        0 <= i < r.spec_area(),
        r.spec_idx_x(i) == x,
        r.spec_idx_y(i) == y,
    ensures
        i == r.spec_xy_idx(x, y),
{
    let w = r.spec_width();
    assert(i == w * (i / w) + i % w) by {
        vstd::arithmetic::div_mod::lemma_fundamental_div_mod(i, w);
    }
    assert(w * (i / w) == (i / w) * w) by (nonlinear_arith);
}

/// Encoding coordinates to a row-major index and decoding again returns the
/// original coordinates, for every in-bounds pair of a rectangle anchored at
/// the origin.
pub proof fn lemma_idx_position_roundtrip(r: Rect, x: int, y: int)
    requires
        r.spec_wf(),
        r.min.x == 0,
        r.min.y == 0,
        0 <= x < r.spec_width(),
        0 <= y < r.spec_height(),
    ensures
        r.spec_idx_x(r.spec_xy_idx(x, y)) == x,
        r.spec_idx_y(r.spec_xy_idx(x, y)) == y,
{
    let w = r.spec_width();
    lemma_fundamental_div_mod_converse(y * w + x, w, y, x);
}

} // verus!
