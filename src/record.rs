use vstd::prelude::*;

use crate::color_utils::Color;

verus! {

/// The shape a drawing record covers, in canvas coordinates.
#[derive(Clone, Copy, Debug, PartialEq, Eq, Structural)]
pub enum Coordinate {
    Point { x: i32, y: i32 },
    /// Every pixel from corner `(x1, y1)` to corner `(x2, y2)`, both included.
    Rectangle { x1: i32, y1: i32, x2: i32, y2: i32 },
    /// Every pixel within distance `r` of the center `(x, y)`.
    Circle { x: i32, y: i32, r: u32 },
}

/// One drawing action of the replayed stream.
#[derive(Clone, Debug)]
pub struct Record {
    /// Milliseconds since the Unix epoch.
    pub timestamp: i64,
    pub user: String,
    pub coordinate: Coordinate,
    pub pixel_color: Color,
}

/// The box `(min_x, min_y, max_x, max_y)` that holds the shape.
pub open spec fn shape_box(c: Coordinate) -> (int, int, int, int) {
    match c {
        Coordinate::Point { x, y } => (x as int, y as int, x as int, y as int),
        Coordinate::Rectangle { x1, y1, x2, y2 } => (x1 as int, y1 as int, x2 as int, y2 as int),
        Coordinate::Circle { x, y, r } => (x - r, y - r, x + r, y + r),
    }
}

/// The shape covers the point `(x, y)`.
pub open spec fn covers(c: Coordinate, x: int, y: int) -> bool {
    match c {
        Coordinate::Point { x: px, y: py } => x == px && y == py,
        Coordinate::Rectangle { x1, y1, x2, y2 } => x1 <= x <= x2 && y1 <= y <= y2,
        Coordinate::Circle { x: cx, y: cy, r } => (x - cx) * (x - cx) + (y - cy) * (y - cy) <= r
            * r,
    }
}

/// What a shape covers lies inside its box.
pub proof fn lemma_covered_in_box(c: Coordinate, x: int, y: int)
    requires
        covers(c, x, y),
    ensures
        shape_box(c).0 <= x <= shape_box(c).2,
        shape_box(c).1 <= y <= shape_box(c).3,
{
    if let Coordinate::Circle { x: cx, y: cy, r } = c {
        let (dx, dy, rr) = (x - cx, y - cy, r as int);
        assert(dx * dx <= rr * rr) by (nonlinear_arith)
            requires
                dx * dx + dy * dy <= rr * rr,
        ;
        assert(dy * dy <= rr * rr) by (nonlinear_arith)
            requires
                dx * dx + dy * dy <= rr * rr,
        ;
        assert(-rr <= dx <= rr) by (nonlinear_arith)
            requires
                dx * dx <= rr * rr,
                rr >= 0,
        ;
        assert(-rr <= dy <= rr) by (nonlinear_arith)
            requires
                dy * dy <= rr * rr,
                rr >= 0,
        ;
    }
}

impl Coordinate {
    /// The box that holds the shape.
    pub fn bounding_box(&self) -> (r: (i64, i64, i64, i64))
        ensures
            (r.0 as int, r.1 as int, r.2 as int, r.3 as int) == shape_box(*self),
        no_unwind
    {
        match *self {
            Coordinate::Point { x, y } => (x as i64, y as i64, x as i64, y as i64),
            Coordinate::Rectangle { x1, y1, x2, y2 } => (x1 as i64, y1 as i64, x2 as i64, y2 as i64),
            Coordinate::Circle { x, y, r } => (
                x as i64 - r as i64,
                y as i64 - r as i64,
                x as i64 + r as i64,
                y as i64 + r as i64,
            ),
        }
    }

    /// Whether the shape covers the point `(x, y)`.
    pub fn contains(&self, x: i64, y: i64) -> (r: bool)
        ensures
            r == covers(*self, x as int, y as int),
        no_unwind
    {
        match *self {
            Coordinate::Point { x: px, y: py } => x == px as i64 && y == py as i64,
            Coordinate::Rectangle { x1, y1, x2, y2 } => x1 as i64 <= x && x <= x2 as i64 && y1 as i64
                <= y && y <= y2 as i64,
            Coordinate::Circle { x: cx, y: cy, r } => {
                let (min_x, min_y, max_x, max_y) = self.bounding_box();
                if x < min_x || x > max_x || y < min_y || y > max_y {
                    proof {
                        if covers(*self, x as int, y as int) {
                            lemma_covered_in_box(*self, x as int, y as int);
                        }
                    }
                    return false;
                }
                let dx: i128 = x as i128 - cx as i128;
                let dy: i128 = y as i128 - cy as i128;
                let rr: i128 = r as i128;
                assert(0 <= dx * dx <= 0x1_0000_0000_0000_0000) by (nonlinear_arith)
                    requires
                        -0xffff_ffff <= dx <= 0xffff_ffff,
                ;
                assert(0 <= dy * dy <= 0x1_0000_0000_0000_0000) by (nonlinear_arith)
                    requires
                        -0xffff_ffff <= dy <= 0xffff_ffff,
                ;
                assert(rr * rr <= 0x1_0000_0000_0000_0000) by (nonlinear_arith)
                    requires
                        0 <= rr <= 0xffff_ffff,
                ;
                let sx: i128 = dx * dx;
                let sy: i128 = dy * dy;
                sx + sy <= rr * rr
            },
        }
    }
}

} // verus!
