//! Automaton points: the cells of an automaton.

use crate::grid::neighbourhood::{remove_self, Neighbours};
use crate::grid::point::point::{IsPoint, Point};
use crate::state::State;
use vstd::prelude::*;

verus! {

/// Automaton point: a cell. It has a coordinate, which never changes, a
/// current and a previous state, and the coordinates of the cells that
/// count as its neighbours. It is never its own neighbour.
pub struct APoint<T> {
    point: Point,
    state: Option<State<T>>,
    prev_state: Option<State<T>>,
    neighbours: Neighbours,
}

impl<T> APoint<T> {
    /// The current state, if the cell has one.
    pub closed spec fn spec_cur_state(&self) -> Option<State<T>> {
        self.state
    }

    /// The state before the last generation, if there was one.
    pub closed spec fn spec_prev_state(&self) -> Option<State<T>> {
        self.prev_state
    }

    /// The coordinates of the neighbours.
    pub closed spec fn spec_neighbours(&self) -> Seq<Point> {
        self.neighbours@
    }

    /// A cell is not among its own neighbours.
    pub open spec fn wf(&self) -> bool {
        !self.spec_neighbours().contains(self.coord())
    }

    /// Whether `self` is `before` with another current and previous state.
    pub open spec fn stands_as(&self, before: &Self) -> bool {
        &&& self.coord() == before.coord()
        &&& self.spec_neighbours() == before.spec_neighbours()
    }

    /// Create a new `APoint`
    ///
    /// # Arguments
    ///
    /// * `x` - x coord of point
    ///
    /// * `y` - y coord of point
    ///
    /// * `v` - Value to be placed inside of the [`APoint`] wrapped in some, None
    ///         if No value to be assigned at creation
    ///
    pub fn new(x: i32, y: i32, v: Option<State<T>>) -> (cell: APoint<T>)
        ensures
            cell.wf(),
            cell.coord() == (Point { x, y }),
            cell.spec_cur_state() == v,
            cell.spec_prev_state() is None,
            cell.spec_neighbours() == Seq::<Point>::empty(),
    {
        APoint { point: Point::new(x, y), state: v, prev_state: None, neighbours: Vec::new() }
    }

    /// Get current state wrapped in option
    pub fn cur_state(&self) -> (state: &Option<State<T>>)
        ensures
            *state == self.spec_cur_state(),
    {
        &self.state
    }

    /// Get previous state wrapped in option
    pub fn prev_state(&self) -> (state: &Option<State<T>>)
        ensures
            *state == self.spec_prev_state(),
    {
        &self.prev_state
    }

    /// Set current state
    pub fn set_cur_state(&mut self, state: State<T>)
        ensures
            final(self).spec_cur_state() == Some(state),
            final(self).spec_prev_state() == old(self).spec_prev_state(),
            final(self).stands_as(old(self)),
    {
        self.state = Some(state);
    }

    /// Set previous state. Only a generation that is committed does this.
    pub(crate) fn set_prev_state(&mut self, state: State<T>)
        ensures
            final(self).spec_prev_state() == Some(state),
            final(self).spec_cur_state() == old(self).spec_cur_state(),
            final(self).stands_as(old(self)),
    {
        self.prev_state = Some(state);
    }

    /// Moves the current state into the previous state and installs `next`
    /// as the current state.
    pub(crate) fn advance(&mut self, next: State<T>)
        ensures
            final(self).spec_cur_state() == Some(next),
            final(self).spec_prev_state() == old(self).spec_cur_state(),
            final(self).stands_as(old(self)),
    {
        match self.state.take() {
            Some(current) => self.set_prev_state(current),
            None => self.prev_state = None,
        }
        self.set_cur_state(next);
    }

    /// Get vector containing the coordinates of the neighbours
    pub fn neighbours(&self) -> (neighbours: &Neighbours)
        ensures
            neighbours@ == self.spec_neighbours(),
    {
        &self.neighbours
    }

    /// Set neighbourhood Vec. The cell's own coordinate is taken out of it.
    pub fn set_neighbours(&mut self, n: Neighbours)
        ensures
            final(self).wf(),
            final(self).spec_neighbours().to_multiset() == n@.to_multiset().filter(
                |p: Point| p != old(self).coord(),
            ),
            forall|p: Point| #[trigger]
                final(self).spec_neighbours().contains(p) <==> n@.contains(p) && p != old(
                    self,
                ).coord(),
            n@.no_duplicates() ==> final(self).spec_neighbours().no_duplicates(),
            final(self).coord() == old(self).coord(),
            final(self).spec_cur_state() == old(self).spec_cur_state(),
            final(self).spec_prev_state() == old(self).spec_prev_state(),
    {
        let mut n = n;
        remove_self(&mut n, &self.point);
        self.neighbours = n;
    }
}

impl<T> IsPoint for APoint<T> {
    closed spec fn coord(&self) -> Point {
        self.point
    }

    fn x(&self) -> (x: i32) {
        self.point.x()
    }

    fn y(&self) -> (y: i32) {
        self.point.y()
    }
}

} // verus!
