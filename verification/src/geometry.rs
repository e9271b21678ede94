//! Rectangles on the drawing surface.
//!
//! A cell's rectangle is in general not a whole number of units wide: the
//! space left after the lines is divided evenly among the cells. A [`Rect`]
//! therefore keeps exact fractions, and its view, a [`Region`], is the rectangle
//! over the real numbers that those fractions denote.

use vstd::prelude::*;

verus! {

/// A rectangle of the real plane, given by its corner nearest the origin and
/// its extent. A negative extent is allowed; such a region contains no point.
pub struct Region {
    pub x: real,
    pub y: real,
    pub width: real,
    pub height: real,
}

impl Region {
    /// Whether the point `(px, py)` lies strictly inside the region. A point on
    /// an edge is not inside.
    pub open spec fn contains(self, px: real, py: real) -> bool {
        &&& self.x < px < self.x + self.width
        &&& self.y < py < self.y + self.height
    }

    /// The horizontal coordinate of the middle of the region.
    pub open spec fn center_x(self) -> real {
        self.x + self.width / 2real
    }

    /// The vertical coordinate of the middle of the region.
    pub open spec fn center_y(self) -> real {
        self.y + self.height / 2real
    }

    /// Whether the point `(px, py)` lies on one of the four lines that bound
    /// the region.
    pub open spec fn on_boundary(self, px: real, py: real) -> bool {
        ||| px == self.x
        ||| px == self.x + self.width
        ||| py == self.y
        ||| py == self.y + self.height
    }
}

/// The largest magnitude that a numerator of a well-formed [`Rect`] may have.
pub const RECT_LIMIT: i128 = 0x10_0000_0000_0000_0000_0000_0000;

/// A rectangle with fractional coordinates. `x` and `width` are numerators over
/// `x_den`; `y` and `height` are numerators over `y_den`.
#[derive(Debug, Clone, Copy, PartialEq, Eq, Structural)]
pub struct Rect {
    pub x: i128,
    pub y: i128,
    pub width: i128,
    pub height: i128,
    pub x_den: usize,
    pub y_den: usize,
}

impl View for Rect {
    type V = Region;

    open spec fn view(&self) -> Region {
        Region {
            x: self.x as real / self.x_den as real,
            y: self.y as real / self.y_den as real,
            width: self.width as real / self.x_den as real,
            height: self.height as real / self.y_den as real,
        }
    }
}

impl Rect {
    /// Both denominators are positive, and the numerators are small enough for
    /// the corner opposite the origin to be computed without overflow.
    pub open spec fn wf(self) -> bool {
        &&& self.x_den > 0
        &&& self.y_den > 0
        &&& -RECT_LIMIT <= self.x <= RECT_LIMIT
        &&& -RECT_LIMIT <= self.y <= RECT_LIMIT
        &&& -RECT_LIMIT <= self.width <= RECT_LIMIT
        &&& -RECT_LIMIT <= self.height <= RECT_LIMIT
    }

    /// Whether the point `(px, py)`, given in whole units, lies strictly inside
    /// the rectangle: the comparison of `contains`, with each side multiplied by
    /// the denominator.
    pub open spec fn covers(self, px: int, py: int) -> bool {
        &&& self.x < px * self.x_den < self.x + self.width
        &&& self.y < py * self.y_den < self.y + self.height
    }

    /// The rectangle with corner `(x, y)` and the given extent, all in whole units.
    pub fn whole(x: i32, y: i32, width: i32, height: i32) -> (r: Rect)
        ensures
            r.wf(),
            r == (Rect {
                x: x as i128,
                y: y as i128,
                width: width as i128,
                height: height as i128,
                x_den: 1,
                y_den: 1,
            }),
            r@ == (Region {
                x: x as real,
                y: y as real,
                width: width as real,
                height: height as real,
            }),
    {
        proof {
            lemma_whole_fraction(x as int);
            lemma_whole_fraction(y as int);
            lemma_whole_fraction(width as int);
            lemma_whole_fraction(height as int);
        }
        Rect {
            x: x as i128,
            y: y as i128,
            width: width as i128,
            height: height as i128,
            x_den: 1,
            y_den: 1,
        }
    }

    /// For a point in whole units, the comparison of numerators decides
    /// whether the point lies strictly inside the region that the rectangle
    /// denotes.
    pub proof fn lemma_covers(self, px: int, py: int)
        requires
            self.x_den > 0,
            self.y_den > 0,
        ensures
            self.covers(px, py) == self@.contains(px as real, py as real),
    {
        lemma_fraction_bounds(self.x as int, self.width as int, self.x_den as int, px);
        lemma_fraction_bounds(self.y as int, self.height as int, self.y_den as int, py);
    }

    /// Tells whether the point `(px, py)`, given in whole units, lies strictly
    /// inside the rectangle.
    pub fn contains(&self, px: i32, py: i32) -> (r: bool)
        requires
            self.wf(),
        ensures
            r == self@.contains(px as real, py as real),
            r == self.covers(px as int, py as int),
    {
        proof {
            lemma_scaled_point_fits(px as int, self.x_den as int);
            lemma_scaled_point_fits(py as int, self.y_den as int);
        }
        let sx: i128 = px as i128 * self.x_den as i128;
        let sy: i128 = py as i128 * self.y_den as i128;
        proof {
            self.lemma_covers(px as int, py as int);
        }
        self.x < sx && sx < self.x + self.width && self.y < sy && sy < self.y + self.height
    }
}

/// A fraction over one is its numerator.
proof fn lemma_whole_fraction(n: int)
    by (nonlinear_arith)
    ensures
        n as real / 1 as real == n as real,
{
}

/// A coordinate of a point, scaled by a denominator, stays far below the limit
/// on numerators.
proof fn lemma_scaled_point_fits(p: int, den: int)
    by (nonlinear_arith)
    requires
        -0x8000_0000 <= p < 0x8000_0000,
        0 <= den <= 0xffff_ffff_ffff_ffff,
    ensures
        -0x8000_0000_0000_0000_0000_0000 <= p * den <= 0x8000_0000_0000_0000_0000_0000,
{
}

/// Comparing a whole number with fractions over a positive denominator comes
/// to comparing numerators after scaling the whole number.
proof fn lemma_fraction_bounds(start: int, extent: int, den: int, p: int)
    by (nonlinear_arith)
    requires
        den > 0,
    ensures
        (start as real / den as real) < p as real <==> start < p * den,
        (p as real) < start as real / den as real + extent as real / den as real <==> p * den < start
            + extent,
{
}

} // verus!
