use crate::grid::point::point::{IsPoint, Point};
use vstd::prelude::*;

verus! {

/// Point that can store a value along with coordinates
pub struct VPoint<U> {
    point: Point,
    val: Option<U>,
}

impl<U> VPoint<U> {
    /// The coordinate of the point.
    pub closed spec fn spec_point(&self) -> Point {
        self.point
    }

    /// The value stored at the point, if any.
    pub closed spec fn spec_val(&self) -> Option<U> {
        self.val
    }

    /// Create a new `VPoint` at `(x, y)` that stores `v`.
    pub fn new(x: i32, y: i32, v: Option<U>) -> (point: VPoint<U>)
        ensures
            point.coord() == (Point { x, y }),
            point.spec_val() == v,
    {
        VPoint { point: Point::new(x, y), val: v }
    }

    /// The value stored at the point, if any.
    pub fn val(&self) -> (val: &Option<U>)
        ensures
            *val == self.spec_val(),
    {
        &self.val
    }

    /// Stores `new_val` in place of what was stored.
    pub fn set_val(&mut self, new_val: U)
        ensures
            final(self).spec_val() == Some(new_val),
            final(self).coord() == old(self).coord(),
    {
        self.val = Some(new_val)
    }

    /// The coordinate of the point.
    pub fn point(&self) -> (point: &Point)
        ensures
            *point == self.coord(),
    {
        &self.point
    }
}

impl<U> IsPoint for VPoint<U> {
    open spec fn coord(&self) -> Point {
        self.spec_point()
    }

    fn x(&self) -> (x: i32) {
        self.point.x()
    }

    fn y(&self) -> (y: i32) {
        self.point.y()
    }
}

} // verus!
