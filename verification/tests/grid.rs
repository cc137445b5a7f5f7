use forest_fire::cell::Cell;
use forest_fire::grid::Grid;
use forest_fire::point::Point;

fn filled(width: usize, height: usize, cell: Cell) -> Grid {
    let mut grid = Grid::new(width, height);
    for y in 0..height {
        for x in 0..width {
            grid.set_cell(x, y, cell);
        }
    }
    grid
}

fn on_ring(width: usize, height: usize, x: usize, y: usize) -> bool {
    x == 0 || y == 0 || x == width - 1 || y == height - 1
}

#[test]
fn cell_colours_are_black_green_red() {
    assert_eq!(Cell::Empty.rgb(), (0, 0, 0));
    assert_eq!(Cell::Tree.rgb(), (0, 255, 0));
    assert_eq!(Cell::Fire.rgb(), (255, 0, 0));
}

#[test]
fn point_new_keeps_coordinates() {
    let p = Point::new(3, 7);
    assert_eq!(p.x, 3);
    assert_eq!(p.y, 7);
    assert_eq!(p, Point { x: 3, y: 7 });
}

#[test]
fn neighbors_go_clockwise_from_top_left() {
    let ring = Point::new(5, 9).neighbors();
    assert_eq!(
        ring,
        [
            Point { x: 4, y: 8 },
            Point { x: 5, y: 8 },
            Point { x: 6, y: 8 },
            Point { x: 6, y: 9 },
            Point { x: 6, y: 10 },
            Point { x: 5, y: 10 },
            Point { x: 4, y: 10 },
            Point { x: 4, y: 9 },
        ]
    );
}

#[test]
fn new_grid_is_empty_ground() {
    let grid = Grid::new(4, 3);
    assert_eq!(grid.width(), 4);
    assert_eq!(grid.height(), 3);
    for y in 0..3 {
        for x in 0..4 {
            assert_eq!(grid.cell_at(x, y), Cell::Empty);
        }
    }
}

#[test]
fn grid_without_cells_is_accepted() {
    let mut grid = Grid::new(0, 0);
    grid.enforce_boundary();
    assert_eq!(grid.width(), 0);
    assert_eq!(grid.height(), 0);
    assert_eq!(grid.to_rgb(), Vec::<u8>::new());
    assert_eq!(grid.burning(), Vec::<Point>::new());
}

#[test]
fn set_cell_changes_one_cell_only() {
    let mut grid = Grid::new(5, 4);
    grid.set_cell(3, 2, Cell::Tree);
    grid.set_cell(0, 3, Cell::Fire);
    for y in 0..4 {
        for x in 0..5 {
            let expected = if (x, y) == (3, 2) {
                Cell::Tree
            } else if (x, y) == (0, 3) {
                Cell::Fire
            } else {
                Cell::Empty
            };
            assert_eq!(grid.cell_at(x, y), expected);
        }
    }
    grid.set_cell(3, 2, Cell::Empty);
    assert_eq!(grid.cell_at(3, 2), Cell::Empty);
}

#[test]
fn is_interior_excludes_the_outer_ring() {
    let grid = Grid::new(4, 5);
    for y in 0..5 {
        for x in 0..4 {
            assert_eq!(grid.is_interior(x, y), !on_ring(4, 5, x, y));
        }
    }
    assert!(!grid.is_interior(4, 2));
    assert!(!grid.is_interior(2, 5));
    assert!(!grid.is_interior(usize::MAX, usize::MAX));
}

#[test]
fn enforce_boundary_empties_outer_ring_for_all_sizes() {
    for height in 3..8 {
        for width in 3..8 {
            let mut grid = filled(width, height, Cell::Tree);
            grid.enforce_boundary();
            for y in 0..height {
                for x in 0..width {
                    let expected = if on_ring(width, height, x, y) { Cell::Empty } else { Cell::Tree };
                    assert_eq!(grid.cell_at(x, y), expected);
                }
            }
        }
    }
}

#[test]
fn enforce_boundary_on_grids_without_interior() {
    for (width, height) in [(1, 1), (2, 2), (1, 5), (6, 2), (2, 3)] {
        let mut grid = filled(width, height, Cell::Fire);
        grid.enforce_boundary();
        for y in 0..height {
            for x in 0..width {
                assert_eq!(grid.cell_at(x, y), Cell::Empty);
            }
        }
    }
}

#[test]
fn enforce_boundary_twice_is_as_once() {
    let mut once = filled(6, 5, Cell::Fire);
    once.set_cell(2, 2, Cell::Tree);
    once.set_cell(0, 0, Cell::Tree);
    let mut twice = filled(6, 5, Cell::Fire);
    twice.set_cell(2, 2, Cell::Tree);
    twice.set_cell(0, 0, Cell::Tree);
    once.enforce_boundary();
    twice.enforce_boundary();
    twice.enforce_boundary();
    for y in 0..5 {
        for x in 0..6 {
            assert_eq!(once.cell_at(x, y), twice.cell_at(x, y));
        }
    }
    assert_eq!(once.to_rgb(), twice.to_rgb());
}

#[test]
fn plant_sets_listed_interior_cells_whatever_they_held() {
    let mut grid = Grid::new(5, 5);
    grid.set_cell(2, 2, Cell::Fire);
    grid.set_cell(3, 3, Cell::Tree);
    let sites = vec![
        Point::new(2, 2),
        Point::new(1, 3),
        Point::new(0, 0),
        Point::new(4, 2),
        Point::new(9, 9),
        Point::new(1, 3),
    ];
    grid.plant(&sites);
    for y in 0..5 {
        for x in 0..5 {
            let expected = match (x, y) {
                (2, 2) | (1, 3) | (3, 3) => Cell::Tree,
                _ => Cell::Empty,
            };
            assert_eq!(grid.cell_at(x, y), expected);
        }
    }
}

#[test]
fn spawn_trees_drops_attempts_on_occupied_cells() {
    let mut grid = Grid::new(5, 5);
    grid.set_cell(2, 2, Cell::Fire);
    grid.set_cell(3, 3, Cell::Tree);
    let picks = vec![Point::new(2, 2), Point::new(3, 3), Point::new(1, 1), Point::new(1, 1)];
    grid.spawn_trees(&picks);
    assert_eq!(grid.cell_at(2, 2), Cell::Fire);
    assert_eq!(grid.cell_at(3, 3), Cell::Tree);
    assert_eq!(grid.cell_at(1, 1), Cell::Tree);
    assert_eq!(grid.cell_at(1, 2), Cell::Empty);
    assert_eq!(grid.cell_at(3, 1), Cell::Empty);
}

#[test]
fn ignite_burns_trees_only() {
    let mut grid = Grid::new(4, 4);
    grid.set_cell(1, 1, Cell::Tree);
    grid.set_cell(2, 2, Cell::Fire);
    assert!(grid.ignite(1, 1));
    assert_eq!(grid.cell_at(1, 1), Cell::Fire);
    assert!(!grid.ignite(1, 1));
    assert_eq!(grid.cell_at(1, 1), Cell::Fire);
    assert!(!grid.ignite(2, 2));
    assert_eq!(grid.cell_at(2, 2), Cell::Fire);
    assert!(!grid.ignite(2, 1));
    assert_eq!(grid.cell_at(2, 1), Cell::Empty);
}

#[test]
fn burn_trees_ignites_the_moore_neighbourhood() {
    let mut grid = filled(7, 7, Cell::Tree);
    grid.enforce_boundary();
    grid.set_cell(3, 3, Cell::Fire);
    let ignited = grid.burn_trees(&vec![Point::new(3, 3)]);
    assert_eq!(
        ignited,
        vec![
            Point::new(2, 2),
            Point::new(3, 2),
            Point::new(4, 2),
            Point::new(4, 3),
            Point::new(4, 4),
            Point::new(3, 4),
            Point::new(2, 4),
            Point::new(2, 3),
        ]
    );
    for y in 0..7 {
        for x in 0..7 {
            let expected = if on_ring(7, 7, x, y) {
                Cell::Empty
            } else if (2..=4).contains(&x) && (2..=4).contains(&y) {
                Cell::Fire
            } else {
                Cell::Tree
            };
            assert_eq!(grid.cell_at(x, y), expected);
        }
    }
}

#[test]
fn burn_trees_does_not_cascade_within_one_pass() {
    let mut grid = Grid::new(8, 3);
    for x in 1..7 {
        grid.set_cell(x, 1, Cell::Tree);
    }
    grid.set_cell(1, 1, Cell::Fire);
    let ignited = grid.burn_trees(&vec![Point::new(1, 1)]);
    assert_eq!(ignited, vec![Point::new(2, 1)]);
    assert_eq!(grid.cell_at(2, 1), Cell::Fire);
    for x in 3..7 {
        assert_eq!(grid.cell_at(x, 1), Cell::Tree);
    }
}

#[test]
fn burn_trees_lists_a_shared_neighbour_once() {
    let mut grid = Grid::new(6, 5);
    grid.set_cell(1, 2, Cell::Fire);
    grid.set_cell(3, 2, Cell::Fire);
    grid.set_cell(2, 2, Cell::Tree);
    grid.set_cell(4, 3, Cell::Tree);
    let ignited = grid.burn_trees(&vec![Point::new(1, 2), Point::new(3, 2)]);
    assert_eq!(ignited, vec![Point::new(2, 2), Point::new(4, 3)]);
    assert_eq!(grid.cell_at(1, 2), Cell::Fire);
    assert_eq!(grid.cell_at(3, 2), Cell::Fire);
}

#[test]
fn clear_fire_empties_listed_cells() {
    let mut grid = filled(4, 4, Cell::Tree);
    grid.set_cell(1, 1, Cell::Fire);
    grid.clear_fire(&vec![Point::new(1, 1), Point::new(2, 3), Point::new(1, 1)]);
    for y in 0..4 {
        for x in 0..4 {
            let expected = if (x, y) == (1, 1) || (x, y) == (2, 3) { Cell::Empty } else { Cell::Tree };
            assert_eq!(grid.cell_at(x, y), expected);
        }
    }
}

#[test]
fn burning_scans_row_by_row() {
    let mut grid = Grid::new(5, 4);
    grid.set_cell(3, 2, Cell::Fire);
    grid.set_cell(1, 1, Cell::Fire);
    grid.set_cell(4, 1, Cell::Fire);
    grid.set_cell(2, 2, Cell::Tree);
    assert_eq!(grid.burning(), vec![Point::new(1, 1), Point::new(4, 1), Point::new(3, 2)]);
}

#[test]
fn to_rgb_is_row_major_with_three_bytes_per_cell() {
    let mut grid = Grid::new(3, 2);
    grid.set_cell(1, 0, Cell::Tree);
    grid.set_cell(2, 1, Cell::Fire);
    assert_eq!(
        grid.to_rgb(),
        vec![0, 0, 0, 0, 255, 0, 0, 0, 0, 0, 0, 0, 0, 0, 0, 255, 0, 0]
    );
}
