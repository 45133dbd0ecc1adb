use ca::grid::apoint::APoint;
use ca::grid::grid_2d::{position_of, Grid2D};
use ca::grid::point::{IsPoint, Point, VPoint};
use ca::state::State;

#[test]
fn a_new_cell_has_its_state_and_nothing_else() {
    let cell = APoint::new(3, 4, Some(State::new("alive", 1)));
    assert_eq!(cell.x(), 3);
    assert_eq!(cell.y(), 4);
    assert_eq!(cell.cur_state().as_ref().unwrap().name(), "alive");
    assert!(cell.prev_state().is_none());
    assert!(cell.neighbours().is_empty());
    let empty: APoint<i32> = APoint::new(0, 0, None);
    assert!(empty.cur_state().is_none());
    assert!(empty.prev_state().is_none());
}

#[test]
fn setting_the_current_state_leaves_the_rest() {
    let mut cell: APoint<i32> = APoint::new(3, 4, None);
    cell.set_neighbours(vec![Point::new(3, 5)]);
    cell.set_cur_state(State::new("alive", 1));
    assert_eq!(cell.cur_state().as_ref().unwrap().name(), "alive");
    cell.set_cur_state(State::new("dead", 0));
    assert_eq!(cell.cur_state().as_ref().unwrap().name(), "dead");
    assert!(cell.prev_state().is_none());
    assert_eq!(*cell.neighbours(), vec![Point::new(3, 5)]);
    assert_eq!((cell.x(), cell.y()), (3, 4));
}

#[test]
fn a_cell_is_never_its_own_neighbour() {
    let mut cell: APoint<i32> = APoint::new(1, 1, None);
    cell.set_neighbours(vec![
        Point::new(1, 1),
        Point::new(0, 1),
        Point::new(1, 1),
        Point::new(2, 1),
        Point::new(1, 1),
    ]);
    let mut neighbours = cell.neighbours().clone();
    neighbours.sort();
    assert_eq!(neighbours, vec![Point::new(0, 1), Point::new(2, 1)]);
    cell.set_neighbours(vec![Point::new(1, 1)]);
    assert!(cell.neighbours().is_empty());
    cell.set_neighbours(vec![Point::new(5, 5), Point::new(5, 5)]);
    assert_eq!(*cell.neighbours(), vec![Point::new(5, 5), Point::new(5, 5)]);
}

#[test]
fn a_new_grid_is_empty() {
    let grid: Grid2D<Point> = Grid2D::new(5, 4);
    assert!(grid.points().is_empty());
    assert_eq!(*grid.max_dims(), Point::new(5, 4));
}

#[test]
fn a_grid_stores_what_stands_on_it() {
    let mut grid = Grid2D::new(2, 3);
    assert!(grid.push(Point::new(0, 0)));
    assert!(grid.push(Point::new(1, 2)));
    assert!(!grid.push(Point::new(2, 0)));
    assert!(!grid.push(Point::new(0, 3)));
    assert!(!grid.push(Point::new(-1, 0)));
    assert!(!grid.push(Point::new(0, -1)));
    assert!(grid.push(Point::new(0, 0)));
    assert_eq!(*grid.points(), vec![Point::new(0, 0), Point::new(1, 2), Point::new(0, 0)]);
}

#[test]
fn a_grid_without_extent_stores_nothing() {
    let mut grid = Grid2D::new(0, 5);
    assert!(!grid.push(Point::new(0, 0)));
    let mut grid = Grid2D::new(-3, -3);
    assert!(!grid.push(Point::new(-1, -1)));
    assert!(grid.set_points(Vec::<Point>::new()));
    assert!(grid.points().is_empty());
}

#[test]
fn set_points_replaces_all_or_nothing() {
    let mut grid = Grid2D::new(2, 2);
    assert!(grid.set_points(vec![Point::new(0, 0), Point::new(1, 1)]));
    assert!(!grid.set_points(vec![Point::new(0, 1), Point::new(2, 2)]));
    assert_eq!(*grid.points(), vec![Point::new(0, 0), Point::new(1, 1)]);
    assert!(grid.set_points(vec![Point::new(1, 0)]));
    assert_eq!(*grid.points(), vec![Point::new(1, 0)]);
    assert_eq!(grid.take_points(), vec![Point::new(1, 0)]);
    assert!(grid.points().is_empty());
    assert_eq!(*grid.max_dims(), Point::new(2, 2));
}

#[test]
fn a_grid_finds_the_first_point_at_a_coordinate() {
    let mut grid = Grid2D::new(3, 3);
    assert!(grid.push(VPoint::new(1, 1, Some("first"))));
    assert!(grid.push(VPoint::new(2, 0, Some("other"))));
    assert!(grid.push(VPoint::new(1, 1, Some("second"))));
    assert_eq!(grid.find(&Point::new(1, 1)), Some(0));
    assert_eq!(grid.find(&Point::new(2, 0)), Some(1));
    assert_eq!(grid.find(&Point::new(0, 2)), None);
    assert_eq!(grid.find(&Point::new(1, 0)), None);
    assert_eq!(grid.points()[0].val().unwrap(), "first");
}

#[test]
fn the_position_of_a_coordinate_among_points() {
    let points = vec![Point::new(4, 4), Point::new(0, 1), Point::new(4, 4)];
    assert_eq!(position_of(&points, &Point::new(0, 1)), Some(1));
    assert_eq!(position_of(&points, &Point::new(4, 4)), Some(0));
    assert_eq!(position_of(&points, &Point::new(1, 0)), None);
    assert_eq!(position_of(&Vec::<Point>::new(), &Point::new(0, 0)), None);
}
