//! Neighbourhood topologies: which coordinates count as the neighbours of a
//! location.
//!
//! A neighbourhood is first computed as a set of offsets relative to the
//! location, then moved to the location, clipped to the grid's extent and
//! freed of the location itself.

use crate::grid::point::point::lemma_plus_minus;
use crate::grid::point::Point;
use vstd::math::abs;
use vstd::multiset::Multiset;
use vstd::prelude::*;
use vstd::wrapping::i32_specs::wrapping_mul;

verus! {

/// The coordinates of a neighbourhood, in no particular order.
pub type Neighbours = Vec<Point>;

/// The topologies a neighbourhood can have.
#[derive(Clone, Copy, Debug, PartialEq, Eq)]
pub enum NType {
    /// The eight cells around a location: Chebyshev distance 1.
    Moore,
    /// The four cells that share an edge with a location: Manhattan distance 1.
    VonNeumann,
    /// Every cell within a given Chebyshev distance.
    ChebyshevDistance,
    /// Every cell within a given Manhattan distance.
    ManhattanDistance,
}

/// The eight compass directions. North is towards smaller `x`, east towards
/// larger `y`.
#[derive(Clone, Copy, Debug, PartialEq, Eq)]
pub enum Direction {
    North,
    NorthEast,
    East,
    SouthEast,
    South,
    SouthWest,
    West,
    NorthWest,
}

/// A topology that needs a radius was resolved without one.
#[derive(Clone, Copy, Debug, PartialEq, Eq)]
pub struct MissingNeighbourhoodSize;

/// A line of cells was asked for along a direction that is not an axis.
#[derive(Clone, Copy, Debug, PartialEq, Eq)]
pub struct InvalidDirection;

/// The larger of the two coordinate distances from the origin.
pub open spec fn chebyshev_distance(p: Point) -> nat {
    if abs(p.x as int) >= abs(p.y as int) {
        abs(p.x as int)
    } else {
        abs(p.y as int)
    }
}

/// The sum of the two coordinate distances from the origin.
pub open spec fn manhattan_distance(p: Point) -> nat {
    abs(p.x as int) + abs(p.y as int)
}

/// How many cells lie within Chebyshev distance `size` of a cell, the cell
/// itself not counted: `(2 * size + 1)² - 1`.
pub open spec fn square_len(size: int) -> int {
    if size >= 1 {
        (2 * size + 1) * (2 * size + 1) - 1
    } else {
        0
    }
}

/// How many cells lie within Manhattan distance `size` of a cell, the cell
/// itself not counted: `2 * size * (size + 1)`.
pub open spec fn diamond_len(size: int) -> int {
    if size >= 1 {
        2 * size * (size + 1)
    } else {
        0
    }
}

/// Whether `point` lies on a grid of extent `max_dims.x` by `max_dims.y`.
pub open spec fn on_grid(point: Point, max_dims: Point) -> bool {
    0 <= point.x < max_dims.x && 0 <= point.y < max_dims.y
}

impl Direction {
    /// The offset of the adjacent cell in this direction.
    pub open spec fn offset(self) -> Point {
        match self {
            Direction::North => Point { x: (-1) as i32, y: 0 },
            Direction::NorthEast => Point { x: (-1) as i32, y: 1 },
            Direction::East => Point { x: 0, y: 1 },
            Direction::SouthEast => Point { x: 1, y: 1 },
            Direction::South => Point { x: 1, y: 0 },
            Direction::SouthWest => Point { x: 1, y: (-1) as i32 },
            Direction::West => Point { x: 0, y: (-1) as i32 },
            Direction::NorthWest => Point { x: (-1) as i32, y: (-1) as i32 },
        }
    }

    /// The offset reached by `count` steps in this direction, each component
    /// wrapping.
    pub open spec fn steps(self, count: i32) -> Point {
        self.offset().times(Point { x: count, y: count })
    }

    /// The offset of the adjacent cell in this direction.
    pub fn rel_cell(&self) -> (p: Point)
        ensures
            p == self.offset(),
    {
        match self {
            Self::North => Point::new(-1, 0),
            Self::NorthEast => Point::new(-1, 1),
            Self::East => Point::new(0, 1),
            Self::SouthEast => Point::new(1, 1),
            Self::South => Point::new(1, 0),
            Self::SouthWest => Point::new(1, -1),
            Self::West => Point::new(0, -1),
            Self::NorthWest => Point::new(-1, -1),
        }
    }
}

/// Whether `point` lies on a grid of extent `max_dims.x` by `max_dims.y`.
pub fn is_valid_point(point: &Point, max_dims: &Point) -> (valid: bool)
    ensures
        valid == on_grid(*point, *max_dims),
{
    point.x < max_dims.x && point.y < max_dims.y && point.x >= 0 && point.y >= 0
}

/// How many integers lie strictly between `from` and `to`.
pub open spec fn between(from: int, to: int) -> nat {
    if to - from > 1 {
        (to - from - 1) as nat
    } else {
        0
    }
}

/// The cells strictly between `start` and `finish` on the row of `start`, in
/// the order of growing `y`.
pub open spec fn row_between(start: Point, finish: Point) -> Seq<Point> {
    Seq::new(
        between(start.y as int, finish.y as int),
        |i: int| Point { x: start.x, y: (start.y + 1 + i) as i32 },
    )
}

/// The cells strictly between `start` and `finish` on the column of `start`,
/// in the order of growing `x`.
pub open spec fn column_between(start: Point, finish: Point) -> Seq<Point> {
    Seq::new(
        between(start.x as int, finish.x as int),
        |i: int| Point { x: (start.x + 1 + i) as i32, y: start.y },
    )
}

/// Appends the cells strictly between `start` and `finish` on the row of
/// `start`: none where `finish` does not lie at a larger `y`.
pub fn add_cells_horizontally(neighbours: &mut Neighbours, start: &Point, finish: &Point)
    ensures
        final(neighbours)@ == old(neighbours)@ + row_between(*start, *finish),
{
    if start.y < finish.y {
        let mut cell: i32 = start.y + 1;
        while cell < finish.y
            invariant
                start.y < cell <= finish.y,
                neighbours@.len() == old(neighbours)@.len() + (cell - start.y - 1),
                neighbours@ == old(neighbours)@ + row_between(*start, *finish).take(
                    cell - start.y - 1,
                ),
            decreases finish.y - cell,
        {
            neighbours.push(Point::new(start.x, cell));
            cell += 1;
        }
    }
}

/// Appends the cells strictly between `start` and `finish` on the column of
/// `start`: none where `finish` does not lie at a larger `x`.
pub fn add_cells_vertically(neighbours: &mut Neighbours, start: &Point, finish: &Point)
    ensures
        final(neighbours)@ == old(neighbours)@ + column_between(*start, *finish),
{
    if start.x < finish.x {
        let mut cell: i32 = start.x + 1;
        while cell < finish.x
            invariant
                start.x < cell <= finish.x,
                neighbours@.len() == old(neighbours)@.len() + (cell - start.x - 1),
                neighbours@ == old(neighbours)@ + column_between(*start, *finish).take(
                    cell - start.x - 1,
                ),
            decreases finish.x - cell,
        {
            neighbours.push(Point::new(cell, start.y));
            cell += 1;
        }
    }
}

/// The cells that `add_cells_ptp` adds: those strictly between `start` and
/// `finish` along an axis, none along a diagonal.
pub open spec fn line_between(direction: Direction, start: Point, finish: Point) -> Seq<Point> {
    match direction {
        Direction::East | Direction::West => row_between(start, finish),
        Direction::North | Direction::South => column_between(start, finish),
        _ => Seq::empty(),
    }
}

/// Appends the cells strictly between two points along an axis: east and
/// west along the row, north and south along the column. Any other
/// direction is refused, and nothing is appended.
pub fn add_cells_ptp(
    neighbours: &mut Neighbours,
    direction: Direction,
    start: &Point,
    finish: &Point,
) -> (done: Result<(), InvalidDirection>)
    ensures
        final(neighbours)@ == old(neighbours)@ + line_between(direction, *start, *finish),
        done is Err <==> !(direction is East || direction is West || direction is North
            || direction is South),
{
    match direction {
        Direction::East | Direction::West => {
            add_cells_horizontally(neighbours, start, finish);
            Ok(())
        },
        Direction::North | Direction::South => {
            add_cells_vertically(neighbours, start, finish);
            Ok(())
        },
        _ => Err(InvalidDirection),
    }
}

/// The four corners of the square ring `count` steps away from the origin.
pub open spec fn corners(count: i32) -> Seq<Point> {
    seq![
        Direction::NorthWest.steps(count),
        Direction::NorthEast.steps(count),
        Direction::SouthWest.steps(count),
        Direction::SouthEast.steps(count),
    ]
}

/// The four sides of the square ring `count` steps away from the origin,
/// without its corners.
pub open spec fn sides(count: i32) -> Seq<Point> {
    row_between(Direction::NorthWest.steps(count), Direction::NorthEast.steps(count))
        + row_between(Direction::SouthWest.steps(count), Direction::SouthEast.steps(count))
        + column_between(Direction::NorthWest.steps(count), Direction::SouthWest.steps(count))
        + column_between(Direction::NorthEast.steps(count), Direction::SouthEast.steps(count))
}

/// The square ring at Chebyshev distance `count`: corners first, then sides.
pub open spec fn ring(count: i32) -> Seq<Point> {
    corners(count) + sides(count)
}

/// The rings at Chebyshev distance 1 to `size`, innermost first.
pub open spec fn chebyshev_cells(size: int) -> Seq<Point>
    decreases size,
{
    if size <= 0 {
        Seq::empty()
    } else {
        chebyshev_cells(size - 1) + ring(size as i32)
    }
}

/// Appends the four corners of the square ring `count` steps away from the
/// origin.
pub fn add_corners_offset(neighbours: &mut Neighbours, count: i32)
    ensures
        final(neighbours)@ == old(neighbours)@ + corners(count),
{
    neighbours.push(Direction::NorthWest.rel_cell() * count);
    neighbours.push(Direction::NorthEast.rel_cell() * count);
    neighbours.push(Direction::SouthWest.rel_cell() * count);
    neighbours.push(Direction::SouthEast.rel_cell() * count);
}

/// Appends the four sides of the square ring `count` steps away from the
/// origin, without its corners.
pub fn add_all_cells_across(neighbours: &mut Neighbours, count: i32)
    ensures
        final(neighbours)@ == old(neighbours)@ + sides(count),
{
    let _ = add_cells_ptp(
        neighbours,
        Direction::East,
        &(Direction::NorthWest.rel_cell() * count),
        &(Direction::NorthEast.rel_cell() * count),
    );
    let _ = add_cells_ptp(
        neighbours,
        Direction::East,
        &(Direction::SouthWest.rel_cell() * count),
        &(Direction::SouthEast.rel_cell() * count),
    );
    let _ = add_cells_ptp(
        neighbours,
        Direction::South,
        &(Direction::NorthWest.rel_cell() * count),
        &(Direction::SouthWest.rel_cell() * count),
    );
    let _ = add_cells_ptp(
        neighbours,
        Direction::South,
        &(Direction::NorthEast.rel_cell() * count),
        &(Direction::SouthEast.rel_cell() * count),
    );
}

/// Appends the offsets within Chebyshev distance `neighbourhood_size` of the
/// origin, ring by ring, the origin left out: none for a size below 1.
pub fn add_chebyshev_distance_cells(neighbours: &mut Neighbours, neighbourhood_size: i32)
    ensures
        final(neighbours)@ == old(neighbours)@ + chebyshev_cells(neighbourhood_size as int),
{
    let mut count: i32 = 0;
    while count < neighbourhood_size
        invariant
            0 <= count,
            count <= neighbourhood_size || count == 0,
            neighbours@ == old(neighbours)@ + chebyshev_cells(count as int),
        decreases neighbourhood_size - count,
    {
        count += 1;
        add_corners_offset(neighbours, count);
        add_all_cells_across(neighbours, count);
    }
    assert(chebyshev_cells(neighbourhood_size as int) == chebyshev_cells(count as int));
}

/// Appends the eight offsets at Chebyshev distance 1.
pub fn add_moore_neighbourhood_cells(neighbours: &mut Neighbours)
    ensures
        final(neighbours)@ == old(neighbours)@ + chebyshev_cells(1),
{
    add_chebyshev_distance_cells(neighbours, 1)
}

/// Where the corners of a ring lie.
proof fn lemma_steps(count: i32)
    requires
        count > i32::MIN,
    ensures
        Direction::NorthWest.steps(count) == (Point { x: (-count) as i32, y: (-count) as i32 }),
        Direction::NorthEast.steps(count) == (Point { x: (-count) as i32, y: count }),
        Direction::SouthWest.steps(count) == (Point { x: count, y: (-count) as i32 }),
        Direction::SouthEast.steps(count) == (Point { x: count, y: count }),
{
    let one: i32 = 1;
    let minus_one: i32 = (-1) as i32;
    assert(one * count == count);
    assert(minus_one * count == -count);
    assert(wrapping_mul(one, count) == count);
    assert(wrapping_mul(minus_one, count) == -count);
}

/// Where a cell at Chebyshev distance `count` stands in `ring(count)`.
spec fn ring_index(count: i32, p: Point) -> int {
    let side = 2 * count - 1;
    if p.x == -count && p.y == -count {
        0
    } else if p.x == -count && p.y == count {
        1
    } else if p.x == count && p.y == -count {
        2
    } else if p.x == count && p.y == count {
        3
    } else if p.x == -count {
        4 + (p.y + count - 1)
    } else if p.x == count {
        4 + side + (p.y + count - 1)
    } else if p.y == -count {
        4 + 2 * side + (p.x + count - 1)
    } else {
        4 + 3 * side + (p.x + count - 1)
    }
}

/// The ring at distance `count` holds each cell at that Chebyshev distance
/// once, and nothing else.
pub proof fn lemma_ring(count: i32)
    requires
        1 <= count,
    ensures
        ring(count).len() == 8 * count,
        ring(count).no_duplicates(),
        forall|p: Point| ring(count).contains(p) <==> chebyshev_distance(p) == count,
{
    lemma_steps(count);
    let r = ring(count);
    assert(r.len() == 8 * count);
    assert forall|i: int| 0 <= i < r.len() implies chebyshev_distance(#[trigger] r[i]) == count
        && ring_index(count, r[i]) == i by {}
    assert forall|p: Point| chebyshev_distance(p) == count implies r.contains(p) by {
        let i = ring_index(count, p);
        assert(0 <= i < r.len());
        assert(r[i] == p);
    }
    assert forall|i: int, j: int| 0 <= i < r.len() && 0 <= j < r.len() && i != j implies r[i]
        != r[j] by {
        assert(ring_index(count, r[i]) == i);
        assert(ring_index(count, r[j]) == j);
    }
}

/// The rings up to distance `size` hold each cell within that Chebyshev
/// distance of the origin once, and neither the origin nor anything farther.
pub proof fn lemma_chebyshev_cells(size: int)
    requires
        size <= i32::MAX,
    ensures
        chebyshev_cells(size).no_duplicates(),
        forall|p: Point| chebyshev_cells(size).contains(p) <==> 1 <= chebyshev_distance(p) <= size,
        chebyshev_cells(size).len() == square_len(size),
    decreases size,
{
    if size > 0 {
        let inner = chebyshev_cells(size - 1);
        let outer = ring(size as i32);
        lemma_chebyshev_cells(size - 1);
        lemma_ring(size as i32);
        lemma_concat_disjoint(inner, outer);
        assert(square_len(size) == square_len(size - 1) + 8 * size) by (nonlinear_arith)
            requires
                size >= 1,
        ;
    }
}

/// The four cells `distance` steps from `centre` along the axes: towards
/// larger `x`, larger `y`, smaller `x`, smaller `y`.
pub open spec fn arms(centre: Point, distance: i32) -> Seq<Point> {
    seq![
        (Point { x: distance, y: 0 }).plus(centre),
        (Point { x: 0, y: distance }).plus(centre),
        (Point { x: (-distance) as i32, y: 0 }).plus(centre),
        (Point { x: 0, y: (-distance) as i32 }).plus(centre),
    ]
}

/// The arms around `centre` at 1 to `distance` steps, nearest first.
pub open spec fn adjacent_cells(centre: Point, distance: int) -> Seq<Point>
    decreases distance,
{
    if distance <= 0 {
        Seq::empty()
    } else {
        adjacent_cells(centre, distance - 1) + arms(centre, distance as i32)
    }
}

/// Appends the cells on the four arms around `rel_cell`, 1 to `distance`
/// steps away along the axes.
pub fn add_adjacent_cells(n: &mut Neighbours, rel_cell: &Point, distance: i32)
    ensures
        final(n)@ == old(n)@ + adjacent_cells(*rel_cell, distance as int),
{
    let mut i: i32 = 0;
    while i < distance
        invariant
            0 <= i,
            i <= distance || i == 0,
            n@ == old(n)@ + adjacent_cells(*rel_cell, i as int),
        decreases distance - i,
    {
        i += 1;
        n.push(Point::new(i, 0) + *rel_cell);
        n.push(Point::new(0, i) + *rel_cell);
        n.push(Point::new(-i, 0) + *rel_cell);
        n.push(Point::new(0, -i) + *rel_cell);
    }
    assert(adjacent_cells(*rel_cell, distance as int) == adjacent_cells(*rel_cell, i as int));
}

/// Whether `cells` holds each offset within Manhattan distance `size` of the
/// origin once, and neither the origin nor anything farther.
pub open spec fn is_diamond(cells: Seq<Point>, size: int) -> bool {
    &&& cells.no_duplicates()
    &&& forall|p: Point| cells.contains(p) <==> 1 <= manhattan_distance(p) <= size
}

/// Whether no cell comes before one that is nearer to the origin by
/// Manhattan distance.
pub open spec fn nearest_first(cells: Seq<Point>) -> bool {
    forall|i: int, j: int|
        0 <= i <= j < cells.len() ==> manhattan_distance(#[trigger] cells[i])
            <= manhattan_distance(#[trigger] cells[j])
}

/// Whether `p` occurs in `cells`.
pub(crate) fn holds(cells: &Neighbours, p: &Point) -> (found: bool)
    ensures
        found == cells@.contains(*p),
{
    let mut i: usize = 0;
    while i < cells.len()
        invariant
            i <= cells.len(),
            forall|j: int| 0 <= j < i ==> cells@[j] != *p,
        decreases cells.len() - i,
    {
        if cells[i] == *p {
            return true;
        }
        i += 1;
    }
    false
}

/// Appends each of `candidates` that is neither `origin` nor in `cells` yet.
fn add_unvisited(cells: &mut Neighbours, candidates: &Neighbours, origin: &Point)
    ensures
        final(cells)@.len() >= old(cells)@.len(),
        final(cells)@.take(old(cells)@.len() as int) == old(cells)@,
        old(cells)@.no_duplicates() ==> final(cells)@.no_duplicates(),
        forall|p: Point| #[trigger]
            final(cells)@.contains(p) <==> old(cells)@.contains(p) || (candidates@.contains(p) && p
                != *origin),
{
    let mut i: usize = 0;
    while i < candidates.len()
        invariant
            i <= candidates.len(),
            cells@.len() >= old(cells)@.len(),
            cells@.take(old(cells)@.len() as int) == old(cells)@,
            old(cells)@.no_duplicates() ==> cells@.no_duplicates(),
            forall|p: Point|
                cells@.contains(p) <==> old(cells)@.contains(p) || (candidates@.take(
                    i as int,
                ).contains(p) && p != *origin),
        decreases candidates.len() - i,
    {
        let q = candidates[i];
        let ghost before = cells@;
        let ghost seen = candidates@.take(i as int);
        assert(candidates@.take(i + 1) == seen.push(q));
        if q != *origin && !holds(cells, &q) {
            cells.push(q);
        }
        assert forall|p: Point|
            cells@.contains(p) <==> old(cells)@.contains(p) || (seen.push(q).contains(p) && p
                != *origin) by {
            lemma_push_contains(before, q, p);
            lemma_push_contains(seen, q, p);
        }
        i += 1;
    }
    assert(candidates@.take(candidates@.len() as int) == candidates@);
}

/// What a sequence contains after a push.
proof fn lemma_push_contains(s: Seq<Point>, q: Point, p: Point)
    ensures
        s.push(q).contains(p) <==> s.contains(p) || p == q,
{
    if s.contains(p) {
        let i = choose|i: int| 0 <= i < s.len() && s[i] == p;
        assert(s.push(q)[i] == p);
    }
    if p == q {
        assert(s.push(q)[s.len() as int] == p);
    }
}

/// Whether each of the four cells next to `cell` is the origin or in `cells`.
spec fn surrounded(cells: Seq<Point>, cell: Point) -> bool {
    forall|k: int|
        0 <= k < 4 ==> #[trigger] arms(cell, 1)[k] == (Point { x: 0, y: 0 }) || cells.contains(
            arms(cell, 1)[k],
        )
}

/// A step along an axis changes the Manhattan distance by one.
proof fn lemma_arms(cell: Point)
    requires
        manhattan_distance(cell) < i32::MAX,
    ensures
        forall|k: int|
            0 <= k < 4 ==> manhattan_distance(#[trigger] arms(cell, 1)[k]) == manhattan_distance(
                cell,
            ) + 1 || manhattan_distance(arms(cell, 1)[k]) == manhattan_distance(cell) - 1,
{
}

/// The neighbour of `p` one step nearer to the origin.
spec fn inward(p: Point) -> Point {
    if p.x > 0 {
        Point { x: (p.x - 1) as i32, y: p.y }
    } else if p.x < 0 {
        Point { x: (p.x + 1) as i32, y: p.y }
    } else if p.y > 0 {
        Point { x: p.x, y: (p.y - 1) as i32 }
    } else {
        Point { x: p.x, y: (p.y + 1) as i32 }
    }
}

/// The step towards the origin leads one step nearer, and back again.
proof fn lemma_inward(p: Point)
    requires
        1 <= manhattan_distance(p) <= i32::MAX,
    ensures
        manhattan_distance(inward(p)) == manhattan_distance(p) - 1,
        exists|k: int| 0 <= k < 4 && #[trigger] arms(inward(p), 1)[k] == p,
{
    let q = inward(p);
    if p.x > 0 {
        assert(arms(q, 1)[0] == p);
    } else if p.x < 0 {
        assert(arms(q, 1)[2] == p);
    } else if p.y > 0 {
        assert(arms(q, 1)[1] == p);
    } else {
        assert(arms(q, 1)[3] == p);
    }
}

/// Appends the offsets within Manhattan distance `neighbourhood_size` of the
/// origin, the origin left out: none for a size below 1. They are found
/// breadth first: the four offsets next to the origin, then whatever lies
/// next to the offsets found last and was not found before.
pub fn add_manahattan_distance_cells(neighbours: &mut Neighbours, neighbourhood_size: i32)
    ensures
        final(neighbours)@.len() >= old(neighbours)@.len(),
        final(neighbours)@.take(old(neighbours)@.len() as int) == old(neighbours)@,
        is_diamond(
            final(neighbours)@.skip(old(neighbours)@.len() as int),
            neighbourhood_size as int,
        ),
        nearest_first(final(neighbours)@.skip(old(neighbours)@.len() as int)),
        final(neighbours)@.len() == old(neighbours)@.len() + diamond_len(neighbourhood_size as int),
{
    let mut cells: Neighbours = Vec::new();
    if neighbourhood_size >= 1 {
        let origin = Point::new(0, 0);
        add_adjacent_cells(&mut cells, &origin, 1);
        let mut count: usize = 0;
        let mut reach: i32 = 1;
        proof {
            reveal_with_fuel(adjacent_cells, 2);
            assert(cells@ == arms(origin, 1));
            assert forall|p: Point| manhattan_distance(p) == 1 implies cells@.contains(p) by {
                lemma_inward(p);
            }
        }
        while reach < neighbourhood_size
            invariant
                1 <= reach <= neighbourhood_size,
                origin == (Point { x: 0, y: 0 }),
                is_diamond(cells@, reach as int),
                nearest_first(cells@),
                count <= cells@.len(),
                forall|i: int| 0 <= i < count ==> manhattan_distance(#[trigger] cells@[i]) < reach,
                forall|i: int|
                    count <= i < cells@.len() ==> manhattan_distance(#[trigger] cells@[i]) == reach,
            decreases neighbourhood_size - reach,
        {
            let end = cells.len();
            let ghost frontier = cells@;
            let ghost first = count;
            while count < end
                invariant
                    1 <= reach < neighbourhood_size,
                    origin == (Point { x: 0, y: 0 }),
                    is_diamond(frontier, reach as int),
                    nearest_first(frontier),
                    first <= count <= end == frontier.len() <= cells@.len(),
                    cells@.take(end as int) == frontier,
                    cells@.no_duplicates(),
                    forall|i: int|
                        first <= i < end ==> manhattan_distance(#[trigger] frontier[i]) == reach,
                    forall|i: int|
                        end <= i < cells@.len() ==> manhattan_distance(#[trigger] cells@[i])
                            == reach + 1,
                    forall|i: int| first <= i < count ==> surrounded(cells@, #[trigger] frontier[i]),
                decreases end - count,
            {
                let curr = cells[count];
                let ghost before = cells@;
                assert(curr == frontier[count as int]);
                let mut around: Neighbours = Vec::new();
                add_adjacent_cells(&mut around, &curr, 1);
                add_unvisited(&mut cells, &around, &origin);
                proof {
                    reveal_with_fuel(adjacent_cells, 2);
                    assert(around@ == arms(curr, 1));
                    lemma_arms(curr);
                    assert(cells@.take(end as int) == before.take(end as int));
                    assert forall|p: Point| before.contains(p) implies cells@.contains(p) by {}
                    assert forall|i: int| end <= i < cells@.len() implies manhattan_distance(
                        #[trigger] cells@[i],
                    ) == reach + 1 by {
                        if i < before.len() {
                            assert(cells@[i] == cells@.take(before.len() as int)[i]);
                        } else {
                            let p = cells@[i];
                            assert(cells@.contains(p));
                            assert(!before.contains(p)) by {
                                if before.contains(p) {
                                    let j = choose|j: int| 0 <= j < before.len() && before[j] == p;
                                    assert(cells@[j] == cells@.take(before.len() as int)[j]);
                                    assert(cells@[j] == cells@[i]);
                                }
                            }
                            assert(around@.contains(p) && p != origin);
                            let k = choose|k: int| 0 <= k < 4 && around@[k] == p;
                            assert(arms(curr, 1)[k] == p);
                            if manhattan_distance(p) == reach - 1 {
                                assert(frontier.contains(p));
                                let j = choose|j: int| 0 <= j < frontier.len() && frontier[j] == p;
                                assert(before[j] == before.take(end as int)[j]);
                                assert(before.contains(p));
                            }
                        }
                    }
                    assert forall|i: int| first <= i < count + 1 implies surrounded(
                        cells@,
                        #[trigger] frontier[i],
                    ) by {
                        if i < count {
                            assert(surrounded(before, frontier[i]));
                        } else {
                            assert forall|k: int| 0 <= k < 4 implies #[trigger] arms(curr, 1)[k]
                                == origin || cells@.contains(arms(curr, 1)[k]) by {
                                assert(around@.contains(around@[k]));
                            }
                        }
                    }
                }
                count += 1;
            }
            proof {
                assert forall|p: Point|
                    cells@.contains(p) <==> 1 <= manhattan_distance(p) <= reach + 1 by {
                    if cells@.contains(p) {
                        let i = choose|i: int| 0 <= i < cells@.len() && cells@[i] == p;
                        if i < end {
                            assert(cells@[i] == cells@.take(end as int)[i]);
                            assert(frontier.contains(p));
                        }
                    }
                    if 1 <= manhattan_distance(p) <= reach {
                        assert(frontier.contains(p));
                        let i = choose|i: int| 0 <= i < frontier.len() && frontier[i] == p;
                        assert(cells@[i] == cells@.take(end as int)[i]);
                    }
                    if manhattan_distance(p) == reach + 1 {
                        lemma_inward(p);
                        let q = inward(p);
                        assert(frontier.contains(q));
                        let i = choose|i: int| 0 <= i < frontier.len() && frontier[i] == q;
                        assert(surrounded(cells@, frontier[i]));
                    }
                }
                assert forall|i: int| 0 <= i < count implies manhattan_distance(
                    #[trigger] cells@[i],
                ) < reach + 1 by {
                    assert(cells@[i] == cells@.take(end as int)[i]);
                    assert(frontier.contains(frontier[i]));
                }
                assert forall|i: int, j: int| 0 <= i <= j < cells@.len() implies manhattan_distance(
                    #[trigger] cells@[i],
                ) <= manhattan_distance(#[trigger] cells@[j]) by {
                    if j < end {
                        assert(cells@[i] == cells@.take(end as int)[i]);
                        assert(cells@[j] == cells@.take(end as int)[j]);
                    }
                }
            }
            reach += 1;
        }
    } else {
        assert(is_diamond(cells@, neighbourhood_size as int));
    }
    let ghost diamond = cells@;
    proof {
        lemma_diamond_len(diamond, neighbourhood_size as int);
    }
    neighbours.append(&mut cells);
    assert(neighbours@.skip(old(neighbours)@.len() as int) == diamond);
}

/// Appends the four offsets at Manhattan distance 1.
pub fn add_von_neumann_neighbourhood_cells(neighbours: &mut Neighbours)
    ensures
        final(neighbours)@.len() >= old(neighbours)@.len(),
        final(neighbours)@.take(old(neighbours)@.len() as int) == old(neighbours)@,
        is_diamond(final(neighbours)@.skip(old(neighbours)@.len() as int), 1),
        nearest_first(final(neighbours)@.skip(old(neighbours)@.len() as int)),
        final(neighbours)@.len() == old(neighbours)@.len() + 4,
{
    add_manahattan_distance_cells(neighbours, 1)
}

/// Two sequences without duplicates and without a common element join
/// into one without duplicates that contains what either contains.
proof fn lemma_concat_disjoint(a: Seq<Point>, b: Seq<Point>)
    requires
        a.no_duplicates(),
        b.no_duplicates(),
        forall|p: Point| !(a.contains(p) && b.contains(p)),
    ensures
        (a + b).no_duplicates(),
        forall|p: Point| (a + b).contains(p) <==> a.contains(p) || b.contains(p),
{
    assert forall|i: int, j: int| 0 <= i < a.len() && 0 <= j < b.len() implies a[i] != b[j] by {
        assert(a.contains(a[i]));
        assert(b.contains(b[j]));
    }
    vstd::seq_lib::lemma_no_dup_in_concat(a, b);
    assert forall|p: Point| (a + b).contains(p) <==> a.contains(p) || b.contains(p) by {
        if a.contains(p) {
            let i = choose|i: int| 0 <= i < a.len() && a[i] == p;
            assert((a + b)[i] == p);
        }
        if b.contains(p) {
            let j = choose|j: int| 0 <= j < b.len() && b[j] == p;
            assert((a + b)[a.len() + j] == p);
        }
        if (a + b).contains(p) {
            let k = choose|k: int| 0 <= k < (a + b).len() && (a + b)[k] == p;
            if k < a.len() {
                assert(a[k] == p);
            } else {
                assert(b[k - a.len()] == p);
            }
        }
    }
}

/// The cells at Manhattan distance `reach`, quadrant by quadrant.
spec fn diamond_ring(reach: int) -> Seq<Point> {
    Seq::new(reach as nat, |i: int| Point { x: (reach - i) as i32, y: i as i32 }) + Seq::new(
        reach as nat,
        |i: int| Point { x: (-i) as i32, y: (reach - i) as i32 },
    ) + Seq::new(reach as nat, |i: int| Point { x: (i - reach) as i32, y: (-i) as i32 })
        + Seq::new(reach as nat, |i: int| Point { x: i as i32, y: (i - reach) as i32 })
}

/// Where a cell at Manhattan distance `reach` stands in `diamond_ring(reach)`.
spec fn diamond_ring_index(reach: int, p: Point) -> int {
    if p.x > 0 && p.y >= 0 {
        p.y as int
    } else if p.x <= 0 && p.y > 0 {
        reach - p.x
    } else if p.x < 0 && p.y <= 0 {
        2 * reach - p.y
    } else {
        3 * reach + p.x
    }
}

/// The ring at distance `reach` holds each cell at that Manhattan distance
/// once, and nothing else.
proof fn lemma_diamond_ring(reach: int)
    requires
        1 <= reach <= i32::MAX,
    ensures
        diamond_ring(reach).len() == 4 * reach,
        diamond_ring(reach).no_duplicates(),
        forall|p: Point| diamond_ring(reach).contains(p) <==> manhattan_distance(p) == reach,
{
    let r = diamond_ring(reach);
    assert forall|i: int| 0 <= i < r.len() implies manhattan_distance(#[trigger] r[i]) == reach
        && diamond_ring_index(reach, r[i]) == i by {}
    assert forall|p: Point| manhattan_distance(p) == reach implies r.contains(p) by {
        let i = diamond_ring_index(reach, p);
        assert(0 <= i < r.len());
        assert(r[i] == p);
    }
    assert forall|i: int, j: int| 0 <= i < r.len() && 0 <= j < r.len() && i != j implies r[i]
        != r[j] by {
        assert(diamond_ring_index(reach, r[i]) == i);
        assert(diamond_ring_index(reach, r[j]) == j);
    }
}

/// The cells within Manhattan distance `size` of the origin, ring by ring.
spec fn diamond_cells(size: int) -> Seq<Point>
    decreases size,
{
    if size <= 0 {
        Seq::empty()
    } else {
        diamond_cells(size - 1) + diamond_ring(size)
    }
}

/// The rings up to distance `size` make up the diamond of that size.
proof fn lemma_diamond_cells(size: int)
    requires
        size <= i32::MAX,
    ensures
        is_diamond(diamond_cells(size), size),
        diamond_cells(size).len() == diamond_len(size),
    decreases size,
{
    if size > 0 {
        lemma_diamond_cells(size - 1);
        lemma_diamond_ring(size);
        lemma_concat_disjoint(diamond_cells(size - 1), diamond_ring(size));
        assert(diamond_len(size) == diamond_len(size - 1) + 4 * size) by (nonlinear_arith)
            requires
                size >= 1,
        ;
    }
}

/// Two sequences without duplicates that contain the same elements are
/// equally long.
proof fn lemma_same_cells_same_len(a: Seq<Point>, b: Seq<Point>)
    requires
        a.no_duplicates(),
        b.no_duplicates(),
        forall|p: Point| a.contains(p) <==> b.contains(p),
    ensures
        a.len() == b.len(),
{
    assert(a.to_set() =~= b.to_set());
    a.unique_seq_to_set();
    b.unique_seq_to_set();
}

/// Whether `cells` holds each offset within Chebyshev distance `size` of
/// the origin once, and neither the origin nor anything farther.
pub open spec fn is_square(cells: Seq<Point>, size: int) -> bool {
    &&& cells.no_duplicates()
    &&& forall|p: Point| cells.contains(p) <==> 1 <= chebyshev_distance(p) <= size
}

/// A square of radius `size` around the origin, without the origin, has
/// `(2 * size + 1)² - 1` cells.
pub proof fn lemma_square_len(cells: Seq<Point>, size: int)
    requires
        is_square(cells, size),
        size <= i32::MAX,
    ensures
        cells.len() == square_len(size),
{
    lemma_chebyshev_cells(size);
    lemma_same_cells_same_len(cells, chebyshev_cells(size));
}

/// A diamond of radius `size` around the origin, without the origin, has
/// `2 * size * (size + 1)` cells.
pub proof fn lemma_diamond_len(cells: Seq<Point>, size: int)
    requires
        is_diamond(cells, size),
        size <= i32::MAX,
    ensures
        cells.len() == diamond_len(size),
{
    lemma_diamond_cells(size);
    lemma_same_cells_same_len(cells, diamond_cells(size));
}

/// `cells` moved by `by`: each cell has `by` added to it, wrapping.
pub open spec fn moved_to(cells: Seq<Point>, by: Point) -> Seq<Point> {
    Seq::new(cells.len(), |i: int| cells[i].plus(by))
}

/// Moves every offset to `cell`: adds `cell` to it, wrapping.
pub fn convert_relative_point_to_absolute(neighbours: &mut Neighbours, cell: &Point)
    ensures
        final(neighbours)@ == moved_to(old(neighbours)@, *cell),
{
    let mut i: usize = 0;
    while i < neighbours.len()
        invariant
            i <= neighbours@.len() == old(neighbours)@.len(),
            forall|j: int| 0 <= j < i ==> neighbours@[j] == old(neighbours)@[j].plus(*cell),
            forall|j: int| i <= j < neighbours@.len() ==> neighbours@[j] == old(neighbours)@[j],
        decreases neighbours.len() - i,
    {
        neighbours[i] = neighbours[i] + *cell;
        i += 1;
    }
}

/// What is left of a sequence after `swap_remove`: the same elements, one
/// occurrence of the removed one less.
proof fn lemma_swap_remove(s: Seq<Point>, i: int)
    requires
        0 <= i < s.len(),
    ensures
        s.update(i, s.last()).drop_last().to_multiset() == s.to_multiset().remove(s[i]),
{
    broadcast use vstd::multiset::group_multiset_axioms;
    broadcast use vstd::seq_lib::group_to_multiset_ensures;

    let t = s.update(i, s.last()).drop_last();
    let u = s.remove(i);
    if i == s.len() - 1 {
        assert(t == u);
    } else {
        let x = s.last();
        assert(t[i] == x && u[u.len() - 1] == x);
        assert(t.remove(i) == u.remove(u.len() - 1));
        assert(t.contains(x));
        assert(u.contains(x));
        vstd::seq_lib::to_multiset_remove(t, i);
        vstd::seq_lib::to_multiset_remove(u, u.len() - 1);
        assert(t.to_multiset().remove(x) == u.to_multiset().remove(x));
        assert(t.to_multiset() =~= u.to_multiset()) by {
            assert forall|p: Point| t.to_multiset().count(p) == u.to_multiset().count(p) by {
                assert(t.to_multiset().remove(x).count(p) == u.to_multiset().remove(x).count(p));
            }
        }
    }
}

/// A sequence whose elements all pass a filter loses nothing to it.
proof fn lemma_all_kept(s: Seq<Point>, keep: spec_fn(Point) -> bool)
    requires
        forall|k: int| 0 <= k < s.len() ==> keep(#[trigger] s[k]),
    ensures
        s.to_multiset().filter(keep) == s.to_multiset(),
{
    broadcast use vstd::multiset::group_multiset_axioms;
    broadcast use vstd::seq_lib::group_to_multiset_ensures;

    assert forall|p: Point| s.to_multiset().filter(keep).count(p) == s.to_multiset().count(p) by {
        if !keep(p) {
            assert(!s.contains(p));
        }
    }
    assert(s.to_multiset().filter(keep) =~= s.to_multiset());
}

/// Removing an element that a filter rejects does not change what passes.
proof fn lemma_filter_remove(m: Multiset<Point>, keep: spec_fn(Point) -> bool, x: Point)
    requires
        !keep(x),
    ensures
        m.remove(x).filter(keep) == m.filter(keep),
{
    broadcast use vstd::multiset::group_multiset_axioms;

    assert(m.remove(x).filter(keep) =~= m.filter(keep));
}

/// Removes the cells that do not lie on a grid of extent `max_dims`. The
/// cells that stay may change places.
pub fn remove_invalid(neighbours: &mut Neighbours, max_dims: &Point)
    ensures
        final(neighbours)@.to_multiset() == old(neighbours)@.to_multiset().filter(
            |p: Point| on_grid(p, *max_dims),
        ),
        forall|p: Point| #[trigger]
            final(neighbours)@.contains(p) <==> old(neighbours)@.contains(p) && on_grid(
                p,
                *max_dims,
            ),
        old(neighbours)@.no_duplicates() ==> final(neighbours)@.no_duplicates(),
{
    let ghost keep = |p: Point| on_grid(p, *max_dims);
    let mut j = neighbours.len();
    let mut i: usize = 0;
    while i < j
        invariant
            j == neighbours@.len(),
            i <= j + 1,
            keep == |p: Point| on_grid(p, *max_dims),
            forall|k: int| 0 <= k < i && k < j ==> keep(#[trigger] neighbours@[k]),
            neighbours@.to_multiset().filter(keep) == old(neighbours)@.to_multiset().filter(keep),
        decreases j + 1 - i,
    {
        let ghost longest = j;
        while i < j && !is_valid_point(&neighbours[i], max_dims)
            invariant
                j == neighbours@.len(),
                j <= longest,
                i <= j,
                keep == |p: Point| on_grid(p, *max_dims),
                forall|k: int| 0 <= k < i ==> keep(#[trigger] neighbours@[k]),
                neighbours@.to_multiset().filter(keep) == old(neighbours)@.to_multiset().filter(
                    keep,
                ),
            decreases j,
        {
            proof {
                lemma_swap_remove(neighbours@, i as int);
                lemma_filter_remove(neighbours@.to_multiset(), keep, neighbours@[i as int]);
            }
            neighbours.swap_remove(i);
            j -= 1;
        }
        i += 1;
    }
    proof {
        lemma_all_kept(neighbours@, keep);
        lemma_filtered(old(neighbours)@, neighbours@, keep);
    }
}

/// Removes every occurrence of `loc`. The cells that stay may change places.
pub fn remove_self(neighbours: &mut Neighbours, loc: &Point)
    ensures
        final(neighbours)@.to_multiset() == old(neighbours)@.to_multiset().filter(
            |p: Point| p != *loc,
        ),
        forall|p: Point| #[trigger]
            final(neighbours)@.contains(p) <==> old(neighbours)@.contains(p) && p != *loc,
        old(neighbours)@.no_duplicates() ==> final(neighbours)@.no_duplicates(),
{
    let ghost keep = |p: Point| p != *loc;
    let mut j = neighbours.len();
    let mut i: usize = 0;
    while i < j
        invariant
            j == neighbours@.len(),
            i <= j + 1,
            keep == |p: Point| p != *loc,
            forall|k: int| 0 <= k < i && k < j ==> keep(#[trigger] neighbours@[k]),
            neighbours@.to_multiset().filter(keep) == old(neighbours)@.to_multiset().filter(keep),
        decreases j + 1 - i,
    {
        let ghost longest = j;
        while i < j && neighbours[i] == *loc
            invariant
                j == neighbours@.len(),
                j <= longest,
                i <= j,
                keep == |p: Point| p != *loc,
                forall|k: int| 0 <= k < i ==> keep(#[trigger] neighbours@[k]),
                neighbours@.to_multiset().filter(keep) == old(neighbours)@.to_multiset().filter(
                    keep,
                ),
            decreases j,
        {
            proof {
                lemma_swap_remove(neighbours@, i as int);
                lemma_filter_remove(neighbours@.to_multiset(), keep, neighbours@[i as int]);
            }
            neighbours.swap_remove(i);
            j -= 1;
        }
        i += 1;
    }
    proof {
        lemma_all_kept(neighbours@, keep);
        lemma_filtered(old(neighbours)@, neighbours@, keep);
    }
}

impl NType {
    /// The radius a topology is resolved with: 1 for Moore and Von Neumann,
    /// the given size for the other two, none where they are given none.
    pub open spec fn radius(self, n_size: Option<i32>) -> Option<int> {
        match self {
            NType::Moore | NType::VonNeumann => Some(1),
            _ => match n_size {
                Some(size) => Some(size as int),
                None => None,
            },
        }
    }

    /// Whether the cell at `offset` from a location is one of its neighbours
    /// under this topology with the given radius.
    pub open spec fn reaches(self, radius: int, offset: Point) -> bool {
        match self {
            NType::Moore | NType::ChebyshevDistance => 1 <= chebyshev_distance(offset) <= radius,
            NType::VonNeumann | NType::ManhattanDistance => 1 <= manhattan_distance(offset)
                <= radius,
        }
    }

    /// How many neighbours a location has under this topology with the given
    /// radius, on a grid that cuts none of them off.
    pub open spec fn len(self, radius: int) -> int {
        match self {
            NType::Moore | NType::ChebyshevDistance => square_len(radius),
            NType::VonNeumann | NType::ManhattanDistance => diamond_len(radius),
        }
    }
}

/// Whether `cells` holds each offset that the topology reaches once, and
/// nothing else.
pub open spec fn is_neighbourhood(cells: Seq<Point>, n_type: NType, radius: int) -> bool {
    &&& cells.no_duplicates()
    &&& forall|p: Point| cells.contains(p) <==> n_type.reaches(radius, p)
}

/// A neighbourhood that no grid cuts has `(2 * radius + 1)² - 1` cells under
/// Moore and Chebyshev distance and `2 * radius * (radius + 1)` under Von
/// Neumann and Manhattan distance.
pub proof fn lemma_neighbourhood_len(cells: Seq<Point>, n_type: NType, radius: int)
    requires
        is_neighbourhood(cells, n_type, radius),
        radius <= i32::MAX,
    ensures
        cells.len() == n_type.len(radius),
        radius >= 1 ==> (n_type is Moore || n_type is ChebyshevDistance) ==> cells.len() == (2
            * radius + 1) * (2 * radius + 1) - 1,
        radius >= 1 ==> (n_type is VonNeumann || n_type is ManhattanDistance) ==> cells.len() == 2
            * radius * (radius + 1),
{
    match n_type {
        NType::Moore | NType::ChebyshevDistance => lemma_square_len(cells, radius),
        NType::VonNeumann | NType::ManhattanDistance => lemma_diamond_len(cells, radius),
    }
}

/// The offsets of the neighbours of a location under the given topology, on
/// a grid that cuts none of them off. Distances need a size; Moore and Von
/// Neumann take none and pay no heed to one.
pub fn relative_neighbourhood_coords(n_type: NType, n_size: Option<i32>) -> (found: Result<
    Neighbours,
    MissingNeighbourhoodSize,
>)
    ensures
        match n_type.radius(n_size) {
            Some(radius) => {
                &&& found is Ok
                &&& is_neighbourhood(found->Ok_0@, n_type, radius)
                &&& found->Ok_0@.len() == n_type.len(radius)
                &&& match n_type {
                    NType::Moore | NType::ChebyshevDistance => found->Ok_0@ == chebyshev_cells(
                        radius,
                    ),
                    NType::VonNeumann | NType::ManhattanDistance => nearest_first(found->Ok_0@),
                }
            },
            None => found is Err,
        },
{
    let mut neighbours: Neighbours = Vec::new();
    match n_type {
        NType::Moore => {
            add_moore_neighbourhood_cells(&mut neighbours);
            proof {
                lemma_chebyshev_cells(1);
            }
        },
        NType::VonNeumann => add_von_neumann_neighbourhood_cells(&mut neighbours),
        NType::ChebyshevDistance => {
            match n_size {
                None => {
                    return Err(MissingNeighbourhoodSize);
                },
                Some(size) => {
                    add_chebyshev_distance_cells(&mut neighbours, size);
                    proof {
                        lemma_chebyshev_cells(size as int);
                    }
                },
            }
        },
        NType::ManhattanDistance => {
            match n_size {
                None => {
                    return Err(MissingNeighbourhoodSize);
                },
                Some(size) => add_manahattan_distance_cells(&mut neighbours, size),
            }
        },
    }
    assert(neighbours@.skip(0) == neighbours@);
    Ok(neighbours)
}

/// `cells` moved back by `by`: each cell has `by` taken from it, wrapping.
pub open spec fn moved_back(cells: Seq<Point>, by: Point) -> Seq<Point> {
    Seq::new(cells.len(), |i: int| cells[i].minus(by))
}

/// Offsets that are moved to a location and back again come out as they
/// went in, each in its place.
pub proof fn lemma_there_and_back(cells: Seq<Point>, location: Point)
    ensures
        moved_back(moved_to(cells, location), location) == cells,
        moved_back(moved_to(cells, location), location).to_set() == cells.to_set(),
{
    assert forall|i: int| 0 <= i < cells.len() implies moved_back(
        moved_to(cells, location),
        location,
    )[i] == cells[i] by {
        lemma_plus_minus(cells[i], location);
    }
    assert(moved_back(moved_to(cells, location), location) =~= cells);
}

/// Moving keeps cells apart, and a cell is among the moved ones when its
/// offset from the location was among the offsets.
proof fn lemma_moved_to(cells: Seq<Point>, by: Point)
    ensures
        cells.no_duplicates() ==> moved_to(cells, by).no_duplicates(),
        forall|p: Point| moved_to(cells, by).contains(p) <==> cells.contains(p.minus(by)),
{
    let moved = moved_to(cells, by);
    assert forall|i: int, j: int|
        0 <= i < moved.len() && 0 <= j < moved.len() && moved[i] == moved[j] implies cells[i]
        == cells[j] by {
        lemma_plus_minus(cells[i], by);
        lemma_plus_minus(cells[j], by);
    }
    assert forall|p: Point| moved.contains(p) <==> cells.contains(p.minus(by)) by {
        lemma_plus_minus(p, by);
        if moved.contains(p) {
            let i = choose|i: int| 0 <= i < moved.len() && moved[i] == p;
            lemma_plus_minus(cells[i], by);
            assert(cells[i] == p.minus(by));
        }
        if cells.contains(p.minus(by)) {
            let i = choose|i: int| 0 <= i < cells.len() && cells[i] == p.minus(by);
            assert(moved[i] == p);
        }
    }
}

/// What a sequence holds after a filter went over it, in whatever order.
proof fn lemma_filtered(before: Seq<Point>, after: Seq<Point>, keep: spec_fn(Point) -> bool)
    requires
        after.to_multiset() == before.to_multiset().filter(keep),
    ensures
        before.no_duplicates() ==> after.no_duplicates(),
        forall|p: Point| after.contains(p) <==> before.contains(p) && keep(p),
{
    broadcast use vstd::multiset::group_multiset_axioms;
    broadcast use vstd::seq_lib::group_to_multiset_ensures;

    before.to_multiset_ensures();
    after.to_multiset_ensures();
    assert forall|p: Point| after.contains(p) <==> before.contains(p) && keep(p) by {
        assert(after.to_multiset().count(p) == before.to_multiset().filter(keep).count(p));
        assert(after.contains(p) <==> after.to_multiset().count(p) > 0);
        assert(before.contains(p) <==> before.to_multiset().count(p) > 0);
    }
    if before.no_duplicates() {
        before.lemma_multiset_has_no_duplicates();
        assert forall|p: Point| after.to_multiset().contains(p) implies after.to_multiset().count(
            p,
        ) == 1 by {
            assert(after.to_multiset().count(p) == before.to_multiset().filter(keep).count(p));
            assert(before.to_multiset().contains(p));
        }
        after.lemma_multiset_has_no_duplicates_conv();
    }
}

/// Whether `cells` holds each neighbour of `loc` on a grid of extent
/// `max_dims` once, and nothing else: the cells of the grid, `loc` itself
/// left out, whose offset from `loc` the topology reaches.
pub open spec fn is_neighbourhood_of(
    cells: Seq<Point>,
    n_type: NType,
    radius: int,
    loc: Point,
    max_dims: Point,
) -> bool {
    &&& cells.no_duplicates()
    &&& forall|p: Point|
        cells.contains(p) <==> p != loc && on_grid(p, max_dims) && n_type.reaches(
            radius,
            p.minus(loc),
        )
}

/// Between two cells of one grid nothing wraps: the offset from one to the
/// other is the difference of their coordinates.
pub proof fn lemma_offset_on_grid(p: Point, loc: Point, max_dims: Point)
    requires
        on_grid(p, max_dims),
        on_grid(loc, max_dims),
    ensures
        p.minus(loc).x == p.x - loc.x,
        p.minus(loc).y == p.y - loc.y,
{
}

/// Moves offsets to `loc`, drops what falls off a grid of extent `max_dims`,
/// and drops `loc` itself.
pub fn place_neighbourhood(neighbours: &mut Neighbours, loc: &Point, max_dims: &Point)
    ensures
        final(neighbours)@.to_multiset() == moved_to(old(neighbours)@, *loc).to_multiset().filter(
            |p: Point| on_grid(p, *max_dims) && p != *loc,
        ),
        forall|p: Point| #[trigger]
            final(neighbours)@.contains(p) <==> p != *loc && on_grid(p, *max_dims) && old(
                neighbours,
            )@.contains(p.minus(*loc)),
        old(neighbours)@.no_duplicates() ==> final(neighbours)@.no_duplicates(),
{
    convert_relative_point_to_absolute(neighbours, loc);
    let ghost moved = neighbours@;
    remove_invalid(neighbours, max_dims);
    let ghost clipped = neighbours@;
    remove_self(neighbours, loc);
    proof {
        broadcast use vstd::multiset::group_multiset_axioms;

        lemma_moved_to(old(neighbours)@, *loc);
        assert(neighbours@.to_multiset() =~= moved.to_multiset().filter(
            |p: Point| on_grid(p, *max_dims) && p != *loc,
        ));
        assert forall|p: Point|
            neighbours@.contains(p) <==> p != *loc && on_grid(p, *max_dims) && old(
                neighbours,
            )@.contains(p.minus(*loc)) by {
            assert(neighbours@.contains(p) <==> clipped.contains(p) && p != *loc);
            assert(clipped.contains(p) <==> moved.contains(p) && on_grid(p, *max_dims));
            assert(moved.contains(p) <==> old(neighbours)@.contains(p.minus(*loc)));
        }
    }
}

/// The neighbours of `loc` under the given topology on a grid of extent
/// `max_dims`: the offsets moved to `loc`, without those that fall off the
/// grid and without `loc` itself.
pub fn neighbourhood_coords(
    n_type: NType,
    n_size: Option<i32>,
    loc: Point,
    max_dims: &Point,
) -> (found: Result<Neighbours, MissingNeighbourhoodSize>)
    ensures
        match n_type.radius(n_size) {
            Some(radius) => found is Ok && is_neighbourhood_of(
                found->Ok_0@,
                n_type,
                radius,
                loc,
                *max_dims,
            ),
            None => found is Err,
        },
{
    let mut neighbours = relative_neighbourhood_coords(n_type, n_size)?;
    let ghost offsets = neighbours@;
    place_neighbourhood(&mut neighbours, &loc, max_dims);
    proof {
        let radius = n_type.radius(n_size)->0;
        assert forall|p: Point|
            neighbours@.contains(p) <==> p != loc && on_grid(p, *max_dims) && n_type.reaches(
                radius,
                p.minus(loc),
            ) by {
            assert(offsets.contains(p.minus(loc)) <==> n_type.reaches(radius, p.minus(loc)));
        }
    }
    Ok(neighbours)
}

} // verus!
