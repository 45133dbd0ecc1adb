use core::cmp::Ordering;
use vstd::prelude::*;
use vstd::std_specs::cmp::PartialOrdSpecImpl;
use vstd::std_specs::ops::{AddSpecImpl, MulSpecImpl};
use vstd::wrapping::i32_specs::{wrapping_add, wrapping_mul, wrapping_sub};

verus! {

/// Anything that stands at a coordinate of the grid.
pub trait IsPoint {
    /// The coordinate this value stands at.
    spec fn coord(&self) -> Point;

    /// The first component of the coordinate.
    fn x(&self) -> (x: i32)
        ensures
            x == self.coord().x,
    ;

    /// The second component of the coordinate.
    fn y(&self) -> (y: i32)
        ensures
            y == self.coord().y,
    ;
}

/// An integer pair, used both as an absolute position on the grid and as a
/// relative offset.
///
/// Arithmetic on points is componentwise and wraps around at the bounds of
/// `i32`, so every operation is total. Points are ordered by `x` first and
/// by `y` where `x` is the same.
#[derive(Clone, Copy, Debug, PartialEq, Eq, Structural, Ord)]
pub struct Point {
    pub x: i32,
    pub y: i32,
}

impl Point {
    /// The point `(x, y)`.
    pub fn new(x: i32, y: i32) -> (p: Point)
        ensures
            p == (Point { x, y }),
    {
        Point { x, y }
    }

    /// Componentwise wrapping sum.
    pub open spec fn plus(self, rhs: Point) -> Point {
        Point { x: wrapping_add(self.x, rhs.x), y: wrapping_add(self.y, rhs.y) }
    }

    /// Componentwise wrapping difference: the offset that leads from `rhs`
    /// to `self`.
    pub open spec fn minus(self, rhs: Point) -> Point {
        Point { x: wrapping_sub(self.x, rhs.x), y: wrapping_sub(self.y, rhs.y) }
    }

    /// Componentwise wrapping product.
    pub open spec fn times(self, rhs: Point) -> Point {
        Point { x: wrapping_mul(self.x, rhs.x), y: wrapping_mul(self.y, rhs.y) }
    }
}

/// Adding a point and taking it away again undo each other, whatever wraps
/// around on the way; and to take a point away is to add it times -1.
pub proof fn lemma_plus_minus(p: Point, q: Point)
    ensures
        p.plus(q).minus(q) == p,
        p.minus(q).plus(q) == p,
        p.minus(q) == p.plus(q.times(Point { x: (-1) as i32, y: (-1) as i32 })),
{
    let minus_one: i32 = (-1) as i32;
    assert(q.x * minus_one == -q.x && q.y * minus_one == -q.y) by (nonlinear_arith)
        requires
            minus_one == -1,
    ;
}

impl PartialOrd for Point {
    fn partial_cmp(&self, other: &Point) -> (order: Option<Ordering>) {
        if self.x < other.x {
            Some(Ordering::Less)
        } else if self.x > other.x {
            Some(Ordering::Greater)
        } else if self.y < other.y {
            Some(Ordering::Less)
        } else if self.y > other.y {
            Some(Ordering::Greater)
        } else {
            Some(Ordering::Equal)
        }
    }
}

impl PartialOrdSpecImpl for Point {
    open spec fn obeys_partial_cmp_spec() -> bool {
        true
    }

    open spec fn partial_cmp_spec(&self, other: &Point) -> Option<Ordering> {
        if self.x < other.x || (self.x == other.x && self.y < other.y) {
            Some(Ordering::Less)
        } else if self.x > other.x || (self.x == other.x && self.y > other.y) {
            Some(Ordering::Greater)
        } else {
            Some(Ordering::Equal)
        }
    }
}

impl IsPoint for Point {
    open spec fn coord(&self) -> Point {
        *self
    }

    fn x(&self) -> (x: i32) {
        self.x
    }

    fn y(&self) -> (y: i32) {
        self.y
    }
}

/// `p + q` adds componentwise, wrapping.
impl core::ops::Add for Point {
    type Output = Point;

    fn add(self, rhs: Point) -> (out: Point) {
        Point::new(self.x.wrapping_add(rhs.x), self.y.wrapping_add(rhs.y))
    }
}

impl AddSpecImpl for Point {
    open spec fn obeys_add_spec() -> bool {
        true
    }

    open spec fn add_req(self, rhs: Point) -> bool {
        true
    }

    open spec fn add_spec(self, rhs: Point) -> Point {
        self.plus(rhs)
    }
}

/// `p + (dx, dy)` adds `dx` to `x` and `dy` to `y`, wrapping.
impl core::ops::Add<(i32, i32)> for Point {
    type Output = Point;

    fn add(self, rhs: (i32, i32)) -> (out: Point) {
        Point::new(self.x.wrapping_add(rhs.0), self.y.wrapping_add(rhs.1))
    }
}

impl AddSpecImpl<(i32, i32)> for Point {
    open spec fn obeys_add_spec() -> bool {
        true
    }

    open spec fn add_req(self, rhs: (i32, i32)) -> bool {
        true
    }

    open spec fn add_spec(self, rhs: (i32, i32)) -> Point {
        self.plus(Point { x: rhs.0, y: rhs.1 })
    }
}

/// `p + k` adds `k` to both components, wrapping.
impl core::ops::Add<i32> for Point {
    type Output = Point;

    fn add(self, rhs: i32) -> (out: Point) {
        Point::new(self.x.wrapping_add(rhs), self.y.wrapping_add(rhs))
    }
}

impl AddSpecImpl<i32> for Point {
    open spec fn obeys_add_spec() -> bool {
        true
    }

    open spec fn add_req(self, rhs: i32) -> bool {
        true
    }

    open spec fn add_spec(self, rhs: i32) -> Point {
        self.plus(Point { x: rhs, y: rhs })
    }
}

/// `p * q` multiplies componentwise, wrapping.
impl core::ops::Mul for Point {
    type Output = Point;

    fn mul(self, rhs: Point) -> (out: Point) {
        Point::new(self.x.wrapping_mul(rhs.x), self.y.wrapping_mul(rhs.y))
    }
}

impl MulSpecImpl for Point {
    open spec fn obeys_mul_spec() -> bool {
        true
    }

    open spec fn mul_req(self, rhs: Point) -> bool {
        true
    }

    open spec fn mul_spec(self, rhs: Point) -> Point {
        self.times(rhs)
    }
}

/// `p * (fx, fy)` multiplies `x` by `fx` and `y` by `fy`, wrapping.
impl core::ops::Mul<(i32, i32)> for Point {
    type Output = Point;

    fn mul(self, rhs: (i32, i32)) -> (out: Point) {
        Point::new(self.x.wrapping_mul(rhs.0), self.y.wrapping_mul(rhs.1))
    }
}

impl MulSpecImpl<(i32, i32)> for Point {
    open spec fn obeys_mul_spec() -> bool {
        true
    }

    open spec fn mul_req(self, rhs: (i32, i32)) -> bool {
        true
    }

    open spec fn mul_spec(self, rhs: (i32, i32)) -> Point {
        self.times(Point { x: rhs.0, y: rhs.1 })
    }
}

/// `p * k` multiplies both components by `k`, wrapping.
impl core::ops::Mul<i32> for Point {
    type Output = Point;

    fn mul(self, rhs: i32) -> (out: Point) {
        Point::new(self.x.wrapping_mul(rhs), self.y.wrapping_mul(rhs))
    }
}

impl MulSpecImpl<i32> for Point {
    open spec fn obeys_mul_spec() -> bool {
        true
    }

    open spec fn mul_req(self, rhs: i32) -> bool {
        true
    }

    open spec fn mul_spec(self, rhs: i32) -> Point {
        self.times(Point { x: rhs, y: rhs })
    }
}

} // verus!
