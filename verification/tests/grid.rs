use hemoglobin::{Cell, Grid};

fn live_cells(grid: &Grid, width: usize, height: usize) -> Vec<Cell> {
    let mut found = Vec::new();
    for y in 0..height {
        for x in 0..width {
            if grid.contains(&(x, y)) {
                found.push((x, y));
            }
        }
    }
    found
}

#[test]
fn new_grid_is_empty() {
    let bounded = Grid::new(Some((4, 5)));
    let unbounded = Grid::new(None);
    assert_eq!(live_cells(&bounded, 8, 8), vec![]);
    assert_eq!(live_cells(&unbounded, 8, 8), vec![]);
}

#[test]
fn bounds_are_reported() {
    let bounded = Grid::new(Some((4, 5)));
    assert_eq!(bounded.x_bound(), Some(4));
    assert_eq!(bounded.y_bound(), Some(5));
    let unbounded = Grid::new(None);
    assert_eq!(unbounded.x_bound(), None);
    assert_eq!(unbounded.y_bound(), None);
}

#[test]
fn insert_then_contains() {
    let mut grid = Grid::new(None);
    assert!(!grid.contains(&(2, 7)));
    grid.insert(&(2, 7));
    assert!(grid.contains(&(2, 7)));
    assert!(!grid.contains(&(7, 2)));
    assert!(!grid.contains(&(2, 6)));
}

#[test]
fn cells_differing_in_one_coordinate_are_distinct() {
    let mut grid = Grid::new(None);
    grid.insert(&(0, 1));
    assert!(grid.contains(&(0, 1)));
    assert!(!grid.contains(&(1, 0)));
    assert!(!grid.contains(&(0, 0)));
    assert!(!grid.contains(&(1, 1)));
}

#[test]
fn largest_coordinates_are_kept_apart() {
    let mut grid = Grid::new(None);
    grid.insert(&(usize::MAX, 0));
    grid.insert(&(0, usize::MAX));
    assert!(grid.contains(&(usize::MAX, 0)));
    assert!(grid.contains(&(0, usize::MAX)));
    assert!(!grid.contains(&(usize::MAX, usize::MAX)));
    assert!(!grid.contains(&(usize::MAX - 1, 0)));
    grid.insert(&(usize::MAX, usize::MAX));
    assert!(grid.contains(&(usize::MAX, usize::MAX)));
}

#[test]
fn inserting_twice_changes_nothing() {
    let mut once = Grid::new(Some((5, 5)));
    once.insert(&(1, 2));
    let mut twice = Grid::new(Some((5, 5)));
    twice.insert(&(1, 2));
    twice.insert(&(1, 2));
    assert_eq!(live_cells(&once, 8, 8), vec![(1, 2)]);
    assert_eq!(live_cells(&twice, 8, 8), live_cells(&once, 8, 8));
}

#[test]
fn bound_itself_is_within_a_bounded_grid() {
    let mut grid = Grid::new(Some((3, 4)));
    grid.insert(&(3, 0));
    grid.insert(&(0, 4));
    grid.insert(&(3, 4));
    assert!(grid.contains(&(3, 0)));
    assert!(grid.contains(&(0, 4)));
    assert!(grid.contains(&(3, 4)));
}

#[test]
fn cell_beyond_a_bound_is_dropped() {
    let mut grid = Grid::new(Some((3, 4)));
    grid.insert(&(4, 0));
    grid.insert(&(0, 5));
    grid.insert(&(4, 5));
    grid.insert(&(usize::MAX, 1));
    assert!(!grid.contains(&(4, 0)));
    assert!(!grid.contains(&(0, 5)));
    assert!(!grid.contains(&(4, 5)));
    assert!(!grid.contains(&(usize::MAX, 1)));
    assert_eq!(live_cells(&grid, 8, 8), vec![]);
}

#[test]
fn unbounded_grid_keeps_any_cell() {
    let mut grid = Grid::new(None);
    grid.insert(&(1_000_000, 3));
    assert!(grid.contains(&(1_000_000, 3)));
}

#[test]
fn place_inserts_only_live_cells() {
    let mut grid = Grid::new(Some((3, 3)));
    grid.place(&(1, 1), true);
    grid.place(&(2, 2), false);
    grid.place(&(9, 9), true);
    assert_eq!(live_cells(&grid, 12, 12), vec![(1, 1)]);
}

#[test]
fn clear_empties_and_keeps_bounds() {
    let mut grid = Grid::new(Some((3, 3)));
    grid.insert(&(0, 0));
    grid.insert(&(2, 1));
    grid.clear();
    assert_eq!(live_cells(&grid, 5, 5), vec![]);
    assert_eq!(grid.x_bound(), Some(3));
    assert_eq!(grid.y_bound(), Some(3));
    grid.insert(&(4, 0));
    assert!(!grid.contains(&(4, 0)));
}

#[test]
fn pattern_of_a_diagonal() {
    let grid = Grid::from(vec!["#  ", " # ", "  #"]);
    assert_eq!(live_cells(&grid, 6, 6), vec![(0, 0), (1, 1), (2, 2)]);
    assert_eq!(grid.x_bound(), None);
    assert_eq!(grid.y_bound(), None);
}

#[test]
fn test_grid_from_string() {
    let grid = Grid::from(vec!["   ", "   "]);
    let mut expected = Grid::new(None);
    assert_eq!(grid, expected);

    let grid = Grid::from(vec!["#  ", "   "]);
    expected.insert(&(0, 0));
    assert_eq!(grid, expected);

    let grid = Grid::from(vec!["#  ", " # "]);
    expected.insert(&(1, 1));
    assert_eq!(grid, expected);
}

#[test]
fn grids_are_equal_when_bounds_and_live_cells_are() {
    let mut a = Grid::new(Some((4, 4)));
    let mut b = Grid::new(Some((4, 4)));
    assert_eq!(a, b);
    a.insert(&(1, 2));
    a.insert(&(3, 0));
    assert_ne!(a, b);
    b.insert(&(3, 0));
    assert_ne!(a, b);
    b.insert(&(1, 2));
    assert_eq!(a, b);
    b.insert(&(9, 9));
    assert_eq!(a, b);
}

#[test]
fn grids_differ_when_a_cell_is_swapped_for_another() {
    let mut a = Grid::new(None);
    let mut b = Grid::new(None);
    a.insert(&(1, 0));
    b.insert(&(0, 1));
    assert_ne!(a, b);
}

#[test]
fn grids_differ_when_bounds_do() {
    assert_ne!(Grid::new(Some((4, 4))), Grid::new(Some((4, 5))));
    assert_ne!(Grid::new(Some((4, 4))), Grid::new(Some((5, 4))));
    assert_ne!(Grid::new(Some((4, 4))), Grid::new(None));
    assert_ne!(Grid::new(None), Grid::new(Some((0, 0))));
    assert_eq!(Grid::new(None), Grid::new(None));
}

#[test]
fn pattern_column_is_x_and_row_is_y() {
    let grid = Grid::from(vec!["#  ", "   ", " # "]);
    assert_eq!(live_cells(&grid, 5, 5), vec![(0, 0), (1, 2)]);
}

#[test]
fn pattern_rows_may_differ_in_length() {
    let grid = Grid::from(vec!["", "##", "#", "   #"]);
    assert_eq!(live_cells(&grid, 6, 6), vec![(0, 1), (1, 1), (0, 2), (3, 3)]);
}

#[test]
fn pattern_counts_characters_not_bytes() {
    let grid = Grid::from(vec!["\u{e9}#", "\u{2588}\u{2588}#"]);
    assert_eq!(live_cells(&grid, 8, 4), vec![(1, 0), (2, 1)]);
}

#[test]
fn pattern_only_the_mark_is_alive() {
    let grid = Grid::from(vec!["x*#.", "\u{2588}1 #"]);
    assert_eq!(live_cells(&grid, 6, 4), vec![(2, 0), (3, 1)]);
}

#[test]
fn empty_pattern_is_empty() {
    let grid = Grid::from(Vec::new());
    assert_eq!(live_cells(&grid, 4, 4), vec![]);
}

#[test]
fn random_fill_stays_inside_the_domain() {
    let mut grid = Grid::new(Some((6, 4)));
    grid.insert(&(6, 4));
    grid.gen();
    for y in 0..8 {
        for x in 0..10 {
            if grid.contains(&(x, y)) {
                assert!(x < 6 && y < 4);
            }
        }
    }
    assert_eq!(grid.x_bound(), Some(6));
    assert_eq!(grid.y_bound(), Some(4));
}

#[test]
fn random_fill_makes_some_cells_live_and_leaves_most_dead() {
    let mut grid = Grid::new(Some((100, 100)));
    grid.gen();
    let live = live_cells(&grid, 100, 100).len();
    assert!(live > 0);
    assert!(live < 5000);
}

#[test]
fn random_fill_leaves_an_unbounded_grid_alone() {
    let mut grid = Grid::new(None);
    grid.insert(&(1, 1));
    grid.insert(&(40, 2));
    grid.gen();
    assert_eq!(live_cells(&grid, 50, 5), vec![(1, 1), (40, 2)]);
}

#[test]
fn random_fill_of_an_empty_domain_is_empty() {
    let mut grid = Grid::new(Some((0, 7)));
    grid.insert(&(0, 3));
    grid.gen();
    assert_eq!(live_cells(&grid, 4, 9), vec![]);
}
