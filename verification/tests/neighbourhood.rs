use ca::grid::neighbourhood::{
    add_adjacent_cells, add_all_cells_across, add_cells_horizontally, add_cells_ptp,
    add_cells_vertically, add_chebyshev_distance_cells, add_corners_offset,
    add_manahattan_distance_cells, add_moore_neighbourhood_cells,
    add_von_neumann_neighbourhood_cells, convert_relative_point_to_absolute, is_valid_point,
    neighbourhood_coords, place_neighbourhood, relative_neighbourhood_coords, remove_invalid,
    remove_self, Direction, InvalidDirection, MissingNeighbourhoodSize, NType,
};
use ca::grid::point::{IsPoint, Point};

fn print_neighbourhood(loc: Point, neighbours: Vec<Point>, size: i32) {
    let mut grid = Vec::new();

    for _ in 0..size {
        let mut cur = Vec::new();
        for _ in 0..size {
            cur.push(" . ");
        }
        grid.push(cur);
    }

    grid[loc.y() as usize][loc.x() as usize] = "\x1b[0;33m X \x1b[0m";

    for n in neighbours.iter() {
        grid[n.y() as usize][n.x() as usize] = "\x1b[0;91m X \x1b[0m";
    }

    for i in 0..size as usize {
        let mut line = String::new();
        for j in 0..size as usize {
            line = format!("{}{}", line, grid[i][j]);
        }
        println!("{}", line);
    }
}

fn sorted(mut cells: Vec<Point>) -> Vec<Point> {
    cells.sort();
    cells
}

fn points(pairs: &[(i32, i32)]) -> Vec<Point> {
    pairs.iter().map(|pair| Point::new(pair.0, pair.1)).collect()
}

fn has_duplicates(cells: &[Point]) -> bool {
    let mut seen = cells.to_vec();
    seen.sort();
    seen.dedup();
    seen.len() != cells.len()
}

#[test]
fn add_chebyshev_distance_cells_test() {
    let mut neighbours = Vec::new();
    let loc = Point::new(0, 9);
    let size = 9;
    add_chebyshev_distance_cells(&mut neighbours, 2);
    convert_relative_point_to_absolute(&mut neighbours, &loc);
    remove_invalid(&mut neighbours, &Point::new(size, size));
    remove_self(&mut neighbours, &loc);
    // print_neighbourhood(loc, neighbours, size as i32);
}

#[test]
fn add_manahattan_distance_cells_test() {
    let mut neighbours = Vec::new();
    let loc = Point::new(4, 4);
    let size = 9;
    add_manahattan_distance_cells(&mut neighbours, 3);
    // println!("{:?}", neighbours);
    convert_relative_point_to_absolute(&mut neighbours, &loc);
    remove_invalid(&mut neighbours, &Point::new(size, size));
    remove_self(&mut neighbours, &loc);
    print_neighbourhood(loc, neighbours, size as i32);
}

#[test]
fn chebyshev_cells_near_an_edge_are_clipped() {
    let mut neighbours = Vec::new();
    let loc = Point::new(0, 9);
    add_chebyshev_distance_cells(&mut neighbours, 2);
    convert_relative_point_to_absolute(&mut neighbours, &loc);
    remove_invalid(&mut neighbours, &Point::new(9, 9));
    remove_self(&mut neighbours, &loc);
    assert_eq!(
        sorted(neighbours),
        points(&[(0, 7), (0, 8), (1, 7), (1, 8), (2, 7), (2, 8)])
    );
}

#[test]
fn manhattan_cells_in_the_middle_are_all_kept() {
    let mut neighbours = Vec::new();
    let loc = Point::new(4, 4);
    add_manahattan_distance_cells(&mut neighbours, 3);
    convert_relative_point_to_absolute(&mut neighbours, &loc);
    remove_invalid(&mut neighbours, &Point::new(9, 9));
    remove_self(&mut neighbours, &loc);
    assert_eq!(neighbours.len(), 24);
    assert!(!has_duplicates(&neighbours));
    for n in neighbours.iter() {
        let distance = (n.x() - 4).abs() + (n.y() - 4).abs();
        assert!(1 <= distance && distance <= 3);
    }
}

#[test]
fn directions_lead_to_the_adjacent_cells() {
    assert_eq!(Direction::North.rel_cell(), Point::new(-1, 0));
    assert_eq!(Direction::NorthEast.rel_cell(), Point::new(-1, 1));
    assert_eq!(Direction::East.rel_cell(), Point::new(0, 1));
    assert_eq!(Direction::SouthEast.rel_cell(), Point::new(1, 1));
    assert_eq!(Direction::South.rel_cell(), Point::new(1, 0));
    assert_eq!(Direction::SouthWest.rel_cell(), Point::new(1, -1));
    assert_eq!(Direction::West.rel_cell(), Point::new(0, -1));
    assert_eq!(Direction::NorthWest.rel_cell(), Point::new(-1, -1));
}

#[test]
fn valid_points_lie_within_the_extent() {
    let dims = Point::new(3, 2);
    assert!(is_valid_point(&Point::new(0, 0), &dims));
    assert!(is_valid_point(&Point::new(2, 1), &dims));
    assert!(!is_valid_point(&Point::new(3, 1), &dims));
    assert!(!is_valid_point(&Point::new(2, 2), &dims));
    assert!(!is_valid_point(&Point::new(-1, 0), &dims));
    assert!(!is_valid_point(&Point::new(0, -1), &dims));
    assert!(!is_valid_point(&Point::new(0, 0), &Point::new(0, 0)));
}

#[test]
fn cells_between_two_points_on_a_row() {
    let mut cells = vec![Point::new(9, 9)];
    add_cells_horizontally(&mut cells, &Point::new(2, -2), &Point::new(2, 2));
    assert_eq!(cells, points(&[(9, 9), (2, -1), (2, 0), (2, 1)]));
    add_cells_horizontally(&mut cells, &Point::new(0, 5), &Point::new(0, 6));
    add_cells_horizontally(&mut cells, &Point::new(0, 5), &Point::new(0, 5));
    add_cells_horizontally(&mut cells, &Point::new(0, 5), &Point::new(0, 1));
    add_cells_horizontally(&mut cells, &Point::new(0, i32::MAX), &Point::new(0, i32::MIN));
    assert_eq!(cells.len(), 4);
}

#[test]
fn cells_between_two_points_on_a_column() {
    let mut cells = Vec::new();
    add_cells_vertically(&mut cells, &Point::new(-2, 3), &Point::new(2, 3));
    assert_eq!(cells, points(&[(-1, 3), (0, 3), (1, 3)]));
    add_cells_vertically(&mut cells, &Point::new(4, 0), &Point::new(4, 0));
    add_cells_vertically(&mut cells, &Point::new(i32::MAX, 0), &Point::new(0, 0));
    assert_eq!(cells.len(), 3);
}

#[test]
fn lines_run_along_the_axes_only() {
    let start = Point::new(-1, -1);
    let finish = Point::new(3, 3);
    let mut cells = Vec::new();
    assert!(add_cells_ptp(&mut cells, Direction::East, &start, &finish).is_ok());
    assert_eq!(cells, points(&[(-1, 0), (-1, 1), (-1, 2)]));
    let mut cells = Vec::new();
    assert!(add_cells_ptp(&mut cells, Direction::West, &start, &finish).is_ok());
    assert_eq!(cells, points(&[(-1, 0), (-1, 1), (-1, 2)]));
    let mut cells = Vec::new();
    assert!(add_cells_ptp(&mut cells, Direction::South, &start, &finish).is_ok());
    assert_eq!(cells, points(&[(0, -1), (1, -1), (2, -1)]));
    let mut cells = Vec::new();
    assert!(add_cells_ptp(&mut cells, Direction::North, &start, &finish).is_ok());
    assert_eq!(cells, points(&[(0, -1), (1, -1), (2, -1)]));
}

#[test]
fn a_diagonal_is_an_invalid_direction() {
    let start = Point::new(-1, -1);
    let finish = Point::new(3, 3);
    let mut cells = vec![Point::new(7, 7)];
    assert_eq!(
        add_cells_ptp(&mut cells, Direction::NorthEast, &start, &finish),
        Err(InvalidDirection)
    );
    assert_eq!(
        add_cells_ptp(&mut cells, Direction::SouthEast, &start, &finish),
        Err(InvalidDirection)
    );
    assert_eq!(
        add_cells_ptp(&mut cells, Direction::SouthWest, &start, &finish),
        Err(InvalidDirection)
    );
    assert_eq!(
        add_cells_ptp(&mut cells, Direction::NorthWest, &start, &finish),
        Err(InvalidDirection)
    );
    assert_eq!(cells, points(&[(7, 7)]));
}

#[test]
fn corners_of_a_ring() {
    let mut cells = Vec::new();
    add_corners_offset(&mut cells, 3);
    assert_eq!(cells, points(&[(-3, -3), (-3, 3), (3, -3), (3, 3)]));
}

#[test]
fn sides_of_a_ring() {
    let mut cells = Vec::new();
    add_all_cells_across(&mut cells, 1);
    assert_eq!(cells, points(&[(-1, 0), (1, 0), (0, -1), (0, 1)]));
    let mut cells = Vec::new();
    add_all_cells_across(&mut cells, 2);
    assert_eq!(
        cells,
        points(&[
            (-2, -1),
            (-2, 0),
            (-2, 1),
            (2, -1),
            (2, 0),
            (2, 1),
            (-1, -2),
            (0, -2),
            (1, -2),
            (-1, 2),
            (0, 2),
            (1, 2)
        ])
    );
}

#[test]
fn chebyshev_rings_come_innermost_first() {
    let mut cells = vec![Point::new(5, 5)];
    add_chebyshev_distance_cells(&mut cells, 1);
    assert_eq!(
        cells,
        points(&[(5, 5), (-1, -1), (-1, 1), (1, -1), (1, 1), (-1, 0), (1, 0), (0, -1), (0, 1)])
    );
    add_chebyshev_distance_cells(&mut cells, 0);
    add_chebyshev_distance_cells(&mut cells, -4);
    assert_eq!(cells.len(), 9);
}

#[test]
fn moore_is_chebyshev_of_radius_one() {
    let mut moore = Vec::new();
    add_moore_neighbourhood_cells(&mut moore);
    let mut chebyshev = Vec::new();
    add_chebyshev_distance_cells(&mut chebyshev, 1);
    assert_eq!(moore, chebyshev);
    assert_eq!(moore.len(), 8);
}

#[test]
fn von_neumann_is_manhattan_of_radius_one() {
    let mut von_neumann = Vec::new();
    add_von_neumann_neighbourhood_cells(&mut von_neumann);
    let mut manhattan = Vec::new();
    add_manahattan_distance_cells(&mut manhattan, 1);
    assert_eq!(sorted(von_neumann), sorted(manhattan.clone()));
    assert_eq!(sorted(manhattan), points(&[(-1, 0), (0, -1), (0, 1), (1, 0)]));
}

#[test]
fn adjacent_cells_lie_on_the_arms_around_a_cell() {
    let mut cells = Vec::new();
    add_adjacent_cells(&mut cells, &Point::new(10, 20), 2);
    assert_eq!(
        cells,
        points(&[
            (11, 20),
            (10, 21),
            (9, 20),
            (10, 19),
            (12, 20),
            (10, 22),
            (8, 20),
            (10, 18)
        ])
    );
    add_adjacent_cells(&mut cells, &Point::new(10, 20), 0);
    add_adjacent_cells(&mut cells, &Point::new(10, 20), -1);
    assert_eq!(cells.len(), 8);
}

#[test]
fn manhattan_diamond_of_radius_two() {
    let mut cells = vec![Point::new(9, 9)];
    add_manahattan_distance_cells(&mut cells, 2);
    assert_eq!(cells[0], Point::new(9, 9));
    assert_eq!(
        sorted(cells[1..].to_vec()),
        points(&[
            (-2, 0),
            (-1, -1),
            (-1, 0),
            (-1, 1),
            (0, -2),
            (0, -1),
            (0, 1),
            (0, 2),
            (1, -1),
            (1, 0),
            (1, 1),
            (2, 0)
        ])
    );
}

#[test]
fn manhattan_without_reach_is_empty() {
    let mut cells = Vec::new();
    add_manahattan_distance_cells(&mut cells, 0);
    add_manahattan_distance_cells(&mut cells, -3);
    assert!(cells.is_empty());
    assert_eq!(
        relative_neighbourhood_coords(NType::ManhattanDistance, Some(0)),
        Ok(Vec::new())
    );
    assert_eq!(
        relative_neighbourhood_coords(NType::ChebyshevDistance, Some(-1)),
        Ok(Vec::new())
    );
}

#[test]
fn chebyshev_neighbourhoods_have_the_size_of_a_square_less_one() {
    for radius in 1..8 {
        let cells = relative_neighbourhood_coords(NType::ChebyshevDistance, Some(radius)).unwrap();
        assert_eq!(cells.len() as i32, (2 * radius + 1) * (2 * radius + 1) - 1);
        assert!(!has_duplicates(&cells));
        assert!(!cells.contains(&Point::new(0, 0)));
        for cell in cells.iter() {
            assert!(cell.x().abs().max(cell.y().abs()) <= radius);
        }
    }
    assert_eq!(relative_neighbourhood_coords(NType::ChebyshevDistance, Some(2)).unwrap().len(), 24);
    assert_eq!(relative_neighbourhood_coords(NType::Moore, None).unwrap().len(), 8);
    assert_eq!(relative_neighbourhood_coords(NType::Moore, Some(5)).unwrap().len(), 8);
}

#[test]
fn manhattan_neighbourhoods_have_the_size_of_a_diamond_less_one() {
    for radius in 1..8 {
        let cells = relative_neighbourhood_coords(NType::ManhattanDistance, Some(radius)).unwrap();
        assert_eq!(cells.len() as i32, 2 * radius * (radius + 1));
        assert!(!has_duplicates(&cells));
        assert!(!cells.contains(&Point::new(0, 0)));
        for cell in cells.iter() {
            assert!(cell.x().abs() + cell.y().abs() <= radius);
        }
    }
    assert_eq!(relative_neighbourhood_coords(NType::ManhattanDistance, Some(2)).unwrap().len(), 12);
    assert_eq!(relative_neighbourhood_coords(NType::VonNeumann, None).unwrap().len(), 4);
    assert_eq!(relative_neighbourhood_coords(NType::VonNeumann, Some(3)).unwrap().len(), 4);
}

#[test]
fn a_distance_without_a_size_is_refused() {
    assert_eq!(
        relative_neighbourhood_coords(NType::ChebyshevDistance, None),
        Err(MissingNeighbourhoodSize)
    );
    assert_eq!(
        relative_neighbourhood_coords(NType::ManhattanDistance, None),
        Err(MissingNeighbourhoodSize)
    );
    let dims = Point::new(5, 5);
    assert_eq!(
        neighbourhood_coords(NType::ChebyshevDistance, None, Point::new(2, 2), &dims),
        Err(MissingNeighbourhoodSize)
    );
    assert_eq!(
        neighbourhood_coords(NType::ManhattanDistance, None, Point::new(2, 2), &dims),
        Err(MissingNeighbourhoodSize)
    );
    assert!(neighbourhood_coords(NType::Moore, None, Point::new(2, 2), &dims).is_ok());
    assert!(neighbourhood_coords(NType::VonNeumann, None, Point::new(2, 2), &dims).is_ok());
}

#[test]
fn moving_adds_the_location_to_every_cell_and_wraps() {
    let mut cells = points(&[(1, 0), (0, -1), (i32::MAX, i32::MIN)]);
    convert_relative_point_to_absolute(&mut cells, &Point::new(4, -4));
    assert_eq!(cells, points(&[(5, -4), (4, -5), (i32::MIN + 3, i32::MAX - 3)]));
}

#[test]
fn moving_there_and_back_gives_the_offsets() {
    let offsets = relative_neighbourhood_coords(NType::ChebyshevDistance, Some(3)).unwrap();
    for loc in [Point::new(4, 4), Point::new(-7, 100), Point::new(i32::MAX, i32::MIN)] {
        let mut cells = offsets.clone();
        convert_relative_point_to_absolute(&mut cells, &loc);
        convert_relative_point_to_absolute(&mut cells, &(loc * -1));
        assert_eq!(cells, offsets);
    }
}

#[test]
fn invalid_cells_are_removed() {
    let mut cells = points(&[(-1, 0), (0, 0), (5, 1), (1, 1), (1, 1), (0, 9), (2, 2), (3, 0)]);
    remove_invalid(&mut cells, &Point::new(3, 3));
    assert_eq!(sorted(cells), points(&[(0, 0), (1, 1), (1, 1), (2, 2)]));
    let mut cells = points(&[(-1, 0), (7, 7)]);
    remove_invalid(&mut cells, &Point::new(3, 3));
    assert!(cells.is_empty());
}

#[test]
fn the_location_is_removed_wherever_it_stands() {
    let loc = Point::new(1, 1);
    let mut cells = points(&[(1, 1), (0, 0), (1, 1), (1, 1), (2, 2), (2, 2), (1, 1)]);
    remove_self(&mut cells, &loc);
    assert_eq!(sorted(cells), points(&[(0, 0), (2, 2), (2, 2)]));
    let mut cells = points(&[(1, 1), (1, 1)]);
    remove_self(&mut cells, &loc);
    assert!(cells.is_empty());
    let mut cells = points(&[(0, 1)]);
    remove_self(&mut cells, &loc);
    assert_eq!(cells, points(&[(0, 1)]));
}

#[test]
fn offsets_are_placed_clipped_and_freed_of_the_location() {
    let mut cells = points(&[(0, 0), (1, 0), (-1, 0), (0, 3), (0, 1), (0, 1)]);
    place_neighbourhood(&mut cells, &Point::new(0, 1), &Point::new(4, 4));
    assert_eq!(sorted(cells), points(&[(0, 2), (0, 2), (1, 1)]));
}

#[test]
fn chebyshev_of_two_in_the_middle_keeps_all_its_cells() {
    let dims = Point::new(9, 9);
    let loc = Point::new(4, 4);
    let unclipped = relative_neighbourhood_coords(NType::ChebyshevDistance, Some(2)).unwrap();
    assert_eq!(unclipped.len(), 24);
    let clipped = neighbourhood_coords(NType::ChebyshevDistance, Some(2), loc, &dims).unwrap();
    assert_eq!(clipped.len(), 24);
    let mut expected = Vec::new();
    for x in 2..7 {
        for y in 2..7 {
            if (x, y) != (4, 4) {
                expected.push(Point::new(x, y));
            }
        }
    }
    assert_eq!(sorted(clipped), expected);
}

#[test]
fn manhattan_of_two_in_the_corner_keeps_its_quadrant() {
    let dims = Point::new(5, 5);
    let loc = Point::new(0, 0);
    let unclipped = relative_neighbourhood_coords(NType::ManhattanDistance, Some(2)).unwrap();
    assert_eq!(unclipped.len(), 12);
    let clipped = neighbourhood_coords(NType::ManhattanDistance, Some(2), loc, &dims).unwrap();
    assert_eq!(sorted(clipped), points(&[(0, 1), (0, 2), (1, 0), (1, 1), (2, 0)]));
}

#[test]
fn neighbours_lie_on_the_grid_apart_from_the_location_and_each_once() {
    let dims = Point::new(6, 4);
    let kinds = [
        (NType::Moore, None),
        (NType::VonNeumann, None),
        (NType::ChebyshevDistance, Some(3)),
        (NType::ManhattanDistance, Some(4)),
    ];
    for (n_type, n_size) in kinds {
        for x in -1..7 {
            for y in -1..5 {
                let loc = Point::new(x, y);
                let cells = neighbourhood_coords(n_type, n_size, loc, &dims).unwrap();
                assert!(!cells.contains(&loc));
                assert!(!has_duplicates(&cells));
                for cell in cells.iter() {
                    assert!(0 <= cell.x() && cell.x() < 6 && 0 <= cell.y() && cell.y() < 4);
                }
            }
        }
    }
}

#[test]
fn moore_neighbours_of_a_corner_and_of_an_edge() {
    let dims = Point::new(3, 3);
    let corner = neighbourhood_coords(NType::Moore, None, Point::new(0, 0), &dims).unwrap();
    assert_eq!(sorted(corner), points(&[(0, 1), (1, 0), (1, 1)]));
    let edge = neighbourhood_coords(NType::VonNeumann, None, Point::new(1, 2), &dims).unwrap();
    assert_eq!(sorted(edge), points(&[(0, 2), (1, 1), (2, 2)]));
    let lone = neighbourhood_coords(NType::Moore, None, Point::new(0, 0), &Point::new(1, 1));
    assert_eq!(lone, Ok(Vec::new()));
}
