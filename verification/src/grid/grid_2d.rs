use crate::grid::neighbourhood::{is_valid_point, on_grid};
use crate::grid::point::point::{IsPoint, Point};
use vstd::prelude::*;

verus! {

/// A 2 dimensional grid of fixed extent that can store anything that
/// implements the [`IsPoint`] Trait. What it stores stands on the grid:
/// `0 <= x < width` and `0 <= y < height`.
pub struct Grid2D<T: IsPoint> {
    max_dims: Point,
    points: Vec<T>,
}

/// Whether `index` is the first place in `points` that stands at `at`.
pub open spec fn first_at<T: IsPoint>(points: Seq<T>, at: Point, index: int) -> bool {
    &&& 0 <= index < points.len()
    &&& points[index].coord() == at
    &&& forall|before: int| 0 <= before < index ==> points[before].coord() != at
}

/// Whether nothing in `points` stands at `at`.
pub open spec fn none_at<T: IsPoint>(points: Seq<T>, at: Point) -> bool {
    forall|index: int| 0 <= index < points.len() ==> points[index].coord() != at
}

/// The first place in `points` that stands at `at`, if there is one.
pub open spec fn place_of<T: IsPoint>(points: Seq<T>, at: Point) -> Option<int> {
    if exists|index: int| first_at(points, at, index) {
        Some(choose|index: int| first_at(points, at, index))
    } else {
        None
    }
}

/// There is one first place at most.
pub proof fn lemma_place_of<T: IsPoint>(points: Seq<T>, at: Point)
    ensures
        forall|index: int| first_at(points, at, index) ==> place_of(points, at) == Some(index),
        none_at(points, at) ==> place_of(points, at) is None,
        place_of(points, at) is Some ==> first_at(points, at, place_of(points, at)->0),
{
    assert forall|index: int| first_at(points, at, index) implies place_of(points, at) == Some(
        index,
    ) by {
        let other = choose|other: int| first_at(points, at, other);
        assert(!(other < index) && !(index < other));
    }
}

/// The first place in `points` that stands at `at`.
pub fn position_of<T: IsPoint>(points: &Vec<T>, at: &Point) -> (found: Option<usize>)
    ensures
        match found {
            Some(index) => place_of(points@, *at) == Some(index as int) && first_at(
                points@,
                *at,
                index as int,
            ),
            None => place_of(points@, *at) is None && none_at(points@, *at),
        },
{
    let mut index: usize = 0;
    while index < points.len()
        invariant
            index <= points@.len(),
            forall|before: int| 0 <= before < index ==> points@[before].coord() != *at,
        decreases points.len() - index,
    {
        if points[index].x() == at.x && points[index].y() == at.y {
            proof {
                assert(first_at(points@, *at, index as int));
                lemma_place_of(points@, *at);
            }
            return Some(index);
        }
        index += 1;
    }
    proof {
        assert(none_at(points@, *at));
        lemma_place_of(points@, *at);
    }
    None
}

impl<T: IsPoint> View for Grid2D<T> {
    type V = Seq<T>;

    /// What the grid stores, in the order in which it came.
    closed spec fn view(&self) -> Seq<T> {
        self.points@
    }
}

impl<T: IsPoint> Grid2D<T> {
    /// The extent of the grid: its width as `x`, its height as `y`.
    pub closed spec fn dims(&self) -> Point {
        self.max_dims
    }

    /// Everything that the grid stores stands on the grid.
    pub open spec fn wf(&self) -> bool {
        forall|index: int| 0 <= index < self@.len() ==> on_grid(self@[index].coord(), self.dims())
    }

    /// An empty grid of the given extent.
    pub fn new(width: i32, height: i32) -> (grid: Grid2D<T>)
        ensures
            grid.wf(),
            grid.dims() == (Point { x: width, y: height }),
            grid@ == Seq::<T>::empty(),
    {
        Grid2D { max_dims: Point::new(width, height), points: Vec::new() }
    }

    /// The extent of the grid: its width as `x`, its height as `y`.
    pub fn max_dims(&self) -> (dims: &Point)
        ensures
            *dims == self.dims(),
    {
        &self.max_dims
    }

    /// What the grid stores, in the order in which it came.
    pub fn points(&self) -> (points: &Vec<T>)
        ensures
            points@ == self@,
    {
        &self.points
    }

    /// Stores `p` if it stands on the grid, and says whether it did.
    pub fn push(&mut self, p: T) -> (stored: bool)
        ensures
            stored == on_grid(p.coord(), old(self).dims()),
            final(self)@ == if stored {
                old(self)@.push(p)
            } else {
                old(self)@
            },
            final(self).dims() == old(self).dims(),
            old(self).wf() ==> final(self).wf(),
    {
        let at = Point::new(p.x(), p.y());
        if is_valid_point(&at, &self.max_dims) {
            self.points.push(p);
            true
        } else {
            false
        }
    }

    /// Stores `p` in place of what the grid stored, if all of `p` stands on
    /// the grid, and says whether it did.
    pub fn set_points(&mut self, p: Vec<T>) -> (stored: bool)
        ensures
            stored == (forall|index: int|
                0 <= index < p@.len() ==> on_grid(#[trigger] p@[index].coord(), old(self).dims())),
            final(self)@ == if stored {
                p@
            } else {
                old(self)@
            },
            final(self).dims() == old(self).dims(),
            stored ==> final(self).wf(),
            old(self).wf() ==> final(self).wf(),
    {
        let mut index: usize = 0;
        while index < p.len()
            invariant
                index <= p@.len(),
                forall|seen: int|
                    0 <= seen < index ==> on_grid(#[trigger] p@[seen].coord(), self.max_dims),
            decreases p.len() - index,
        {
            let at = Point::new(p[index].x(), p[index].y());
            if !is_valid_point(&at, &self.max_dims) {
                return false;
            }
            index += 1;
        }
        self.points = p;
        true
    }

    /// Hands out what the grid stored and leaves the grid empty.
    pub fn take_points(&mut self) -> (points: Vec<T>)
        ensures
            points@ == old(self)@,
            final(self)@ == Seq::<T>::empty(),
            final(self).dims() == old(self).dims(),
            final(self).wf(),
    {
        let mut points: Vec<T> = Vec::new();
        core::mem::swap(&mut points, &mut self.points);
        points
    }

    /// The first place in the grid that stands at `at`.
    pub fn find(&self, at: &Point) -> (found: Option<usize>)
        ensures
            match found {
                Some(index) => place_of(self@, *at) == Some(index as int),
                None => place_of(self@, *at) is None,
            },
    {
        position_of(&self.points, at)
    }
}

} // verus!
