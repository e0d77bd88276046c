use vstd::prelude::*;

verus! {

/// A position on the grid, in tile coordinates.
#[derive(Clone, Copy, Debug, PartialEq, Eq, Structural, Hash)]
pub struct Point {
    pub x: i32,
    pub y: i32,
}

/// Rust's integer division by two, which rounds toward zero.
pub open spec fn half_toward_zero(n: int) -> int {
    if n >= 0 {
        n / 2
    } else {
        -((-n) / 2)
    }
}

impl Point {
    pub fn new(x: i32, y: i32) -> (p: Point)
        ensures
            p.x == x,
            p.y == y,
    {
        Point { x, y }
    }

    pub fn zero() -> (p: Point)
        ensures
            p.x == 0,
            p.y == 0,
    {
        Point { x: 0, y: 0 }
    }
}

/// An axis-aligned rectangle. Its tiles are those with `x1 <= x < x2` and `y1 <= y < y2`.
#[derive(Clone, Copy, Debug, PartialEq, Eq, Structural)]
pub struct Rect {
    pub x1: i32,
    pub x2: i32,
    pub y1: i32,
    pub y2: i32,
}

impl Rect {
    /// The two rectangles overlap or touch (their closed extents meet).
    pub open spec fn overlaps(self, other: Rect) -> bool {
        self.x1 <= other.x2 && self.x2 >= other.x1 && self.y1 <= other.y2 && self.y2 >= other.y1
    }

    /// The tile `(x, y)` lies inside the rectangle.
    pub open spec fn holds(self, x: int, y: int) -> bool {
        self.x1 <= x < self.x2 && self.y1 <= y < self.y2
    }

    /// Both sums that the center is computed from fit in an `i32`.
    pub open spec fn center_fits(self) -> bool {
        i32::MIN <= self.x1 + self.x2 <= i32::MAX && i32::MIN <= self.y1 + self.y2 <= i32::MAX
    }

    pub open spec fn center_x(self) -> int {
        half_toward_zero(self.x1 + self.x2)
    }

    pub open spec fn center_y(self) -> int {
        half_toward_zero(self.y1 + self.y2)
    }

    /// The center as a point.
    pub open spec fn center_point(self) -> Point {
        Point { x: self.center_x() as i32, y: self.center_y() as i32 }
    }

    /// A rectangle with its top-left corner at `(x, y)`, `w` wide and `h` high.
    pub fn with_size(x: i32, y: i32, w: i32, h: i32) -> (r: Rect)
        requires
            i32::MIN <= x + w <= i32::MAX,
            i32::MIN <= y + h <= i32::MAX,
        ensures
            r.x1 == x,
            r.y1 == y,
            r.x2 == x + w,
            r.y2 == y + h,
    {
        Rect { x1: x, y1: y, x2: x + w, y2: y + h }
    }

    /// Whether this rectangle overlaps `other`.
    pub fn intersect(&self, other: &Rect) -> (b: bool)
        ensures
            b == self.overlaps(*other),
    {
        self.x1 <= other.x2 && self.x2 >= other.x1 && self.y1 <= other.y2 && self.y2 >= other.y1
    }

    /// The middle of the rectangle, each coordinate halved toward zero.
    pub fn center(&self) -> (p: Point)
        requires
            self.center_fits(),
        ensures
            p.x == self.center_x(),
            p.y == self.center_y(),
    {
        Point::new((self.x1 + self.x2) / 2, (self.y1 + self.y2) / 2)
    }

    /// Whether the tile at `p` lies inside the rectangle.
    pub fn point_in_rect(&self, p: Point) -> (b: bool)
        ensures
            b == self.holds(p.x as int, p.y as int),
    {
        p.x >= self.x1 && p.x < self.x2 && p.y >= self.y1 && p.y < self.y2
    }
}

/// Overlap is symmetric.
pub proof fn lemma_overlaps_symmetric(a: Rect, b: Rect)
    ensures
        a.overlaps(b) == b.overlaps(a),
{
}

/// The point `(x, y)` lies within `r` or on its edges.
pub open spec fn closed_holds(r: Rect, x: int, y: int) -> bool {
    r.x1 <= x <= r.x2 && r.y1 <= y <= r.y2
}

/// Two rectangles, each with its corners in order, overlap exactly when their closed extents
/// (edges included) share a point: rectangles that only touch along an edge or at a corner
/// overlap too.
pub proof fn lemma_overlaps_iff_common_point(a: Rect, b: Rect)
    requires
        a.x1 <= a.x2,
        a.y1 <= a.y2,
        b.x1 <= b.x2,
        b.y1 <= b.y2,
    ensures
        a.overlaps(b) <==> exists|x: int, y: int| #[trigger] closed_holds(a, x, y) && closed_holds(b, x, y),
{
    if a.overlaps(b) {
        let x: int = if a.x1 >= b.x1 { a.x1 as int } else { b.x1 as int };
        let y: int = if a.y1 >= b.y1 { a.y1 as int } else { b.y1 as int };
        assert(closed_holds(a, x, y) && closed_holds(b, x, y));
    }
}

/// The rectangle mirrored in the diagonal: its `x` and `y` coordinates swapped.
pub open spec fn transposed(r: Rect) -> Rect {
    Rect { x1: r.y1, x2: r.y2, y1: r.x1, y2: r.x2 }
}

/// Overlap treats both axes alike: swapping the `x` and `y` coordinates of both rectangles
/// does not change whether they overlap.
pub proof fn lemma_overlaps_transposed(a: Rect, b: Rect)
    ensures
        transposed(a).overlaps(transposed(b)) == a.overlaps(b),
{
}

} // verus!
