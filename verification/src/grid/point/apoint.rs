use crate::grid::neighbourhood::{remove_self, Neighbours};
use crate::grid::point::point::{IsPoint, Point};
use crate::grid::point::vpoint::VPoint;
use vstd::prelude::*;

verus! {

/// A named point: a point with a value that also keeps the value it had
/// before and the coordinates of its neighbours. It is never its own
/// neighbour.
pub struct APoint<U> {
    name: String,
    point: VPoint<U>,
    prev_state: Option<U>,
    neighbours: Neighbours,
}

impl<U> APoint<U> {
    /// The name of the point.
    pub closed spec fn spec_name(&self) -> Seq<char> {
        self.name@
    }

    /// The value of the point, if it has one.
    pub closed spec fn spec_cur_state(&self) -> Option<U> {
        self.point.spec_val()
    }

    /// The value the point had before, if it had one.
    pub closed spec fn spec_prev_state(&self) -> Option<U> {
        self.prev_state
    }

    /// The coordinates of the neighbours.
    pub closed spec fn spec_neighbours(&self) -> Seq<Point> {
        self.neighbours@
    }

    /// A point is not among its own neighbours.
    pub open spec fn wf(&self) -> bool {
        !self.spec_neighbours().contains(self.coord())
    }

    /// Create a new `APoint`
    ///
    /// # Arguments
    ///
    /// * `x` - x coord of point
    ///
    /// * `y` - y coord of point
    ///
    /// * `v` - Value to be placed inside of the [`APoint`] wrapped in some, None
    ///         if No value to be assigned at creation
    ///
    /// * `name` - name of the point
    ///
    pub fn new(x: i32, y: i32, v: Option<U>, name: String) -> (point: APoint<U>)
        ensures
            point.wf(),
            point.coord() == (Point { x, y }),
            point.spec_name() == name@,
            point.spec_cur_state() == v,
            point.spec_prev_state() is None,
            point.spec_neighbours() == Seq::<Point>::empty(),
    {
        APoint { name, point: VPoint::new(x, y, v), prev_state: None, neighbours: Vec::new() }
    }

    /// The name of the point.
    pub fn name(&self) -> (name: &str)
        ensures
            name@ == self.spec_name(),
    {
        self.name.as_str()
    }

    /// The value of the point, if it has one.
    pub fn cur_state(&self) -> (state: &Option<U>)
        ensures
            *state == self.spec_cur_state(),
    {
        self.point.val()
    }

    /// The value the point had before, if it had one.
    pub fn prev_state(&self) -> (state: &Option<U>)
        ensures
            *state == self.spec_prev_state(),
    {
        &self.prev_state
    }

    /// The coordinates of the neighbours.
    pub fn neighbours(&self) -> (neighbours: &Neighbours)
        ensures
            neighbours@ == self.spec_neighbours(),
    {
        &self.neighbours
    }

    /// Sets the neighbours. The point's own coordinate is taken out of them.
    pub fn set_neighbours(&mut self, n: Neighbours)
        ensures
            final(self).wf(),
            final(self).spec_neighbours().to_multiset() == n@.to_multiset().filter(
                |p: Point| p != old(self).coord(),
            ),
            final(self).coord() == old(self).coord(),
            final(self).spec_name() == old(self).spec_name(),
            final(self).spec_cur_state() == old(self).spec_cur_state(),
            final(self).spec_prev_state() == old(self).spec_prev_state(),
    {
        let mut n = n;
        let at = Point::new(self.point.x(), self.point.y());
        remove_self(&mut n, &at);
        self.neighbours = n;
    }
}

impl<U> IsPoint for APoint<U> {
    closed spec fn coord(&self) -> Point {
        self.point.spec_point()
    }

    fn x(&self) -> (x: i32) {
        self.point.x()
    }

    fn y(&self) -> (y: i32) {
        self.point.y()
    }
}

} // verus!
