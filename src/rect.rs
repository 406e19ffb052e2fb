use vstd::prelude::*;

verus! {

/// Mathematical model of an axis-aligned rectangle.
pub struct RectView {
    pub min_x: int,
    pub min_y: int,
    pub max_x: int,
    pub max_y: int,
}

pub open spec fn min_int(a: int, b: int) -> int {
    if a <= b { a } else { b }
}

pub open spec fn max_int(a: int, b: int) -> int {
    if a >= b { a } else { b }
}

impl RectView {
    pub open spec fn well_formed(self) -> bool {
        self.min_x <= self.max_x && self.min_y <= self.max_y
    }

    /// Overlap with positive area: shared edges or corners do not count.
    pub open spec fn intersects(self, other: RectView) -> bool {
        !(self.max_x <= other.min_x || other.max_x <= self.min_x || self.max_y <= other.min_y
            || other.max_y <= self.min_y)
    }

    pub open spec fn translate(self, dx: int, dy: int) -> RectView {
        RectView {
            min_x: self.min_x + dx,
            min_y: self.min_y + dy,
            max_x: self.max_x + dx,
            max_y: self.max_y + dy,
        }
    }

    /// Lies inside `[0, width] x [0, height]`, boundary included.
    pub open spec fn within_sheet(self, width: int, height: int) -> bool {
        !(self.min_x < 0 || self.min_y < 0 || self.max_x > width || self.max_y > height)
    }

    /// The bounding envelope: the box spanned by the two corners, whatever their order.
    pub open spec fn envelope(self) -> RectView {
        RectView {
            min_x: min_int(self.min_x, self.max_x),
            min_y: min_int(self.min_y, self.max_y),
            max_x: max_int(self.min_x, self.max_x),
            max_y: max_int(self.min_y, self.max_y),
        }
    }

    /// Closed-box overlap of the two envelopes: touching boxes count.
    pub open spec fn envelopes_touch(self, other: RectView) -> bool {
        let a = self.envelope();
        let b = other.envelope();
        a.min_x <= b.max_x && a.min_y <= b.max_y && a.max_x >= b.min_x && a.max_y >= b.min_y
    }

    /// Squared Euclidean distance from `(px, py)` to the nearest point of the rectangle.
    pub open spec fn distance_2(self, px: int, py: int) -> int {
        let dx = px - max_int(self.min_x, min_int(self.max_x, px));
        let dy = py - max_int(self.min_y, min_int(self.max_y, py));
        dx * dx + dy * dy
    }
}

/// An axis-aligned rectangle `{min_x, min_y, max_x, max_y}`.
#[derive(Clone, Copy, Debug, PartialEq, Eq, Structural)]
pub struct Rectangle {
    pub min_x: i64,
    pub min_y: i64,
    pub max_x: i64,
    pub max_y: i64,
}

impl View for Rectangle {
    type V = RectView;

    open spec fn view(&self) -> RectView {
        RectView {
            min_x: self.min_x as int,
            min_y: self.min_y as int,
            max_x: self.max_x as int,
            max_y: self.max_y as int,
        }
    }
}

pub open spec fn fits_i64(v: int) -> bool {
    i64::MIN <= v <= i64::MAX
}

impl Rectangle {
    pub fn new(min_x: i64, min_y: i64, max_x: i64, max_y: i64) -> (r: Rectangle)
        ensures
            r@ == (RectView {
                min_x: min_x as int,
                min_y: min_y as int,
                max_x: max_x as int,
                max_y: max_y as int,
            }),
    {
        Rectangle { min_x, min_y, max_x, max_y }
    }

    /// Builds a rectangle from a `(min_x, min_y, max_x, max_y)` tuple.
    pub fn from_bounds(b: (i64, i64, i64, i64)) -> (r: Rectangle)
        ensures
            r@ == bounds_view(b),
    {
        Rectangle::new(b.0, b.1, b.2, b.3)
    }

    /// True iff the two rectangles overlap with positive area.
    pub fn intersects(&self, other: &Rectangle) -> (r: bool)
        ensures
            r == self@.intersects(other@),
    {
        !(self.max_x <= other.min_x || other.max_x <= self.min_x || self.max_y <= other.min_y
            || other.max_y <= self.min_y)
    }

    /// A copy shifted by `(dx, dy)`.
    pub fn translate(&self, dx: i64, dy: i64) -> (r: Rectangle)
        requires
            fits_i64(self.min_x + dx),
            fits_i64(self.max_x + dx),
            fits_i64(self.min_y + dy),
            fits_i64(self.max_y + dy),
        ensures
            r@ == self@.translate(dx as int, dy as int),
    {
        Rectangle::new(self.min_x + dx, self.min_y + dy, self.max_x + dx, self.max_y + dy)
    }

    /// The bounding envelope, with its corners in order.
    pub fn envelope(&self) -> (r: Rectangle)
        ensures
            r@ == self@.envelope(),
    {
        let (lo_x, hi_x) = if self.min_x <= self.max_x {
            (self.min_x, self.max_x)
        } else {
            (self.max_x, self.min_x)
        };
        let (lo_y, hi_y) = if self.min_y <= self.max_y {
            (self.min_y, self.max_y)
        } else {
            (self.max_y, self.min_y)
        };
        Rectangle::new(lo_x, lo_y, hi_x, hi_y)
    }

    /// Squared distance from the point `(px, py)` to the rectangle.
    pub fn distance_2(&self, px: i64, py: i64) -> (r: u128)
        requires
            self@.distance_2(px as int, py as int) <= u128::MAX,
        ensures
            r as int == self@.distance_2(px as int, py as int),
    {
        let cx = if self.max_x < px { self.max_x } else { px };
        let cx = if self.min_x > cx { self.min_x } else { cx };
        let cy = if self.max_y < py { self.max_y } else { py };
        let cy = if self.min_y > cy { self.min_y } else { cy };
        let dx: i128 = px as i128 - cx as i128;
        let dy: i128 = py as i128 - cy as i128;
        let ax: u128 = if dx < 0 { (-dx) as u128 } else { dx as u128 };
        let ay: u128 = if dy < 0 { (-dy) as u128 } else { dy as u128 };
        assert(ax * ax == dx * dx) by (nonlinear_arith)
            requires ax as int == dx || ax as int == -dx;
        assert(ay * ay == dy * dy) by (nonlinear_arith)
            requires ay as int == dy || ay as int == -dy;
        assert(0 <= ax * ax && 0 <= ay * ay) by (nonlinear_arith);
        ax * ax + ay * ay
    }
}

pub open spec fn bounds_view(b: (i64, i64, i64, i64)) -> RectView {
    RectView { min_x: b.0 as int, min_y: b.1 as int, max_x: b.2 as int, max_y: b.3 as int }
}

/// Overlap does not depend on the order of the two rectangles.
pub proof fn lemma_intersects_symmetric(a: RectView, b: RectView)
    ensures
        a.intersects(b) == b.intersects(a),
{
}

/// Rectangles that meet along an edge line (one's maximum equals the other's
/// minimum on some axis) do not intersect.
pub proof fn lemma_touching_edges_do_not_intersect(a: RectView, b: RectView)
    requires
        a.max_x == b.min_x || b.max_x == a.min_x || a.max_y == b.min_y || b.max_y == a.min_y,
    ensures
        !a.intersects(b),
        !b.intersects(a),
{
}

/// Shifting by `(dx, dy)` and then by `(-dx, -dy)` gives back the rectangle.
pub proof fn lemma_translate_round_trip(r: RectView, dx: int, dy: int)
    ensures
        r.translate(dx, dy).translate(-dx, -dy) == r,
{
}

/// The same law for machine rectangles: whenever both shifts are
/// representable, the second one returns exactly the rectangle started from.
pub proof fn lemma_rectangle_translate_round_trip(r: Rectangle, dx: i64, dy: i64, shifted: Rectangle, back: Rectangle)
    requires
        shifted@ == r@.translate(dx as int, dy as int),
        back@ == shifted@.translate(-dx, -dy),
    ensures
        back == r,
{
}

} // verus!
