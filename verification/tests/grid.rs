use squarevolution::coord::Coord;
use squarevolution::grid::{Cell, Grid};

fn c(x: i32, y: i32) -> Coord {
    Coord { x, y }
}

fn grid_of(cells: &[(i32, i32)]) -> Grid {
    let mut g = Grid::default();
    for &(x, y) in cells {
        g.cycle(c(x, y));
    }
    g
}

fn coords(found: Vec<(Coord, Cell)>) -> Vec<(i32, i32)> {
    found.iter().map(|&(p, _)| (p.x, p.y)).collect()
}

#[test]
fn lone_cell_dies() {
    let mut g = grid_of(&[(0, 0)]);
    g.step();
    assert!(!g.get(c(0, 0)));
}

#[test]
fn pair_dies() {
    let mut g = grid_of(&[(0, 0), (1, 0)]);
    g.step();
    assert!(!g.get(c(0, 0)));
    assert!(!g.get(c(1, 0)));
}

#[test]
fn two_neighbours_survive() {
    // The centre of a blinker has two live neighbours and survives.
    let mut g = grid_of(&[(0, 0), (1, 0), (2, 0)]);
    g.step();
    assert!(g.get(c(1, 0)));
}

#[test]
fn three_neighbours_survive() {
    // Every cell of a block has three live neighbours and survives.
    let mut g = grid_of(&[(0, 0), (1, 0), (0, 1), (1, 1)]);
    g.step();
    assert!(g.get(c(0, 0)));
    assert!(g.get(c(1, 0)));
    assert!(g.get(c(0, 1)));
    assert!(g.get(c(1, 1)));
}

#[test]
fn four_neighbours_die() {
    // The centre of a plus shape has four live neighbours and dies.
    let mut g = grid_of(&[(0, 0), (1, 0), (-1, 0), (0, 1), (0, -1)]);
    g.step();
    assert!(!g.get(c(0, 0)));
}

#[test]
fn birth_on_exactly_three() {
    let mut g = grid_of(&[(0, 0), (1, 0), (2, 0)]);
    g.step();
    assert!(g.get(c(1, 1)));
    assert!(g.get(c(1, -1)));
}

#[test]
fn no_birth_on_two() {
    let mut g = grid_of(&[(0, 0), (2, 0)]);
    g.step();
    assert!(!g.get(c(1, 0)));
    assert!(!g.get(c(1, 1)));
}

#[test]
fn block_is_still_life() {
    let mut g = grid_of(&[(7, -3), (8, -3), (7, -2), (8, -2)]);
    for _ in 0..5 {
        g.step();
        let found = g.get_range(c(0, -10), c(20, 10));
        assert_eq!(coords(found), vec![(7, -3), (8, -3), (7, -2), (8, -2)]);
    }
}

#[test]
fn blinker_has_period_two() {
    let mut g = grid_of(&[(0, 0), (1, 0), (2, 0)]);
    g.step();
    let found = g.get_range(c(-5, -5), c(5, 5));
    assert_eq!(coords(found), vec![(1, -1), (1, 0), (1, 1)]);
    g.step();
    let found = g.get_range(c(-5, -5), c(5, 5));
    assert_eq!(coords(found), vec![(0, 0), (1, 0), (2, 0)]);
}

#[test]
fn cycle_is_self_inverse() {
    let mut g = grid_of(&[(4, 4)]);
    assert!(!g.get(c(3, 3)));
    g.cycle(c(3, 3));
    assert!(g.get(c(3, 3)));
    g.cycle(c(3, 3));
    assert!(!g.get(c(3, 3)));
    assert!(g.get(c(4, 4)));
    g.cycle(c(4, 4));
    assert!(!g.get(c(4, 4)));
    g.cycle(c(4, 4));
    assert!(g.get(c(4, 4)));
}

#[test]
fn multistep_matches_repeated_step() {
    // A glider, advanced four generations two different ways.
    let start = [(0, 0), (1, 0), (2, 0), (2, 1), (1, 2)];
    let mut a = grid_of(&start);
    let mut b = grid_of(&start);
    a.multistep(4);
    for _ in 0..4 {
        b.step();
    }
    let wa = coords(a.get_range(c(-20, -20), c(20, 20)));
    let wb = coords(b.get_range(c(-20, -20), c(20, 20)));
    assert_eq!(wa, wb);
    assert!(!wa.is_empty());
}

#[test]
fn multistep_zero_is_a_no_op() {
    let mut g = grid_of(&[(0, 0), (1, 0), (2, 0)]);
    g.multistep(0);
    let found = g.get_range(c(-5, -5), c(5, 5));
    assert_eq!(coords(found), vec![(0, 0), (1, 0), (2, 0)]);
}

#[test]
fn range_query_rectangle() {
    let g = grid_of(&[(0, 0), (5, 5)]);
    let near = g.get_range(c(0, 0), c(3, 3));
    assert_eq!(coords(near), vec![(0, 0)]);
    let all = g.get_range(c(0, 0), c(5, 5));
    assert_eq!(coords(all), vec![(0, 0), (5, 5)]);
}

#[test]
fn range_query_is_row_major_ascending() {
    let g = grid_of(&[(2, 1), (0, 0), (1, 1), (2, 0), (-1, 2)]);
    let found = g.get_range(c(-3, -3), c(3, 3));
    assert_eq!(coords(found), vec![(0, 0), (2, 0), (1, 1), (2, 1), (-1, 2)]);
}

#[test]
fn range_query_excludes_outside_rows() {
    // A rectangle, not a row-major interval: cells between the corners in
    // the total order but outside the rectangle are not returned.
    let g = grid_of(&[(0, 0), (9, 0), (1, 1)]);
    let found = g.get_range(c(0, 0), c(2, 2));
    assert_eq!(coords(found), vec![(0, 0), (1, 1)]);
}

#[test]
fn range_query_empty_grid() {
    let g = Grid::default();
    let found = g.get_range(c(-100, -100), c(100, 100));
    assert!(found.is_empty());
}

#[test]
fn get_after_step_reflects_population() {
    let mut g = grid_of(&[(0, 0), (1, 0), (2, 0)]);
    g.step();
    // Exactly the vertical blinker is alive; everything else, near or far,
    // is dead, including cells in chunks no live cell touches.
    for y in -3..=3 {
        for x in -3..=3 {
            assert_eq!(g.get(c(x, y)), x == 1 && -1 <= y && y <= 1);
        }
    }
    assert!(!g.get(c(1000, 1000)));
    assert!(!g.get(c(-1000, 7)));
}

#[test]
fn toggled_empty_cell_leaves_no_live_cell() {
    // A toggle that empties a cell still marks its chunk active, and the
    // query must keep reporting the cell dead.
    let mut g = grid_of(&[(300, 300)]);
    g.cycle(c(300, 300));
    assert!(!g.get(c(300, 300)));
    let found = g.get_range(c(200, 200), c(400, 400));
    assert!(found.is_empty());
}

#[test]
fn neighbours_interior() {
    let nb = c(10, 20).neighbours();
    let got: Vec<(i32, i32)> = nb.iter().map(|p| (p.x, p.y)).collect();
    assert_eq!(
        got,
        vec![
            (9, 19),
            (10, 19),
            (11, 19),
            (9, 20),
            (11, 20),
            (9, 21),
            (10, 21),
            (11, 21)
        ]
    );
}

#[test]
fn neighbours_at_coordinate_limits() {
    let top = c(i32::MAX, i32::MAX).neighbours();
    assert_eq!(top.len(), 3);
    let bottom = c(i32::MIN, i32::MIN).neighbours();
    assert_eq!(bottom.len(), 3);
    let edge = c(i32::MIN, 0).neighbours();
    assert_eq!(edge.len(), 5);
}

#[test]
fn block_survives_at_coordinate_limit() {
    // Two cells on the rim plus their diagonal neighbour: each corner cell
    // has two or three live neighbours, and the fourth block cell is born.
    let m = i32::MAX;
    let mut g = grid_of(&[(m, m), (m - 1, m), (m, m - 1)]);
    g.step();
    assert!(g.get(c(m, m)));
    assert!(g.get(c(m - 1, m)));
    assert!(g.get(c(m, m - 1)));
    assert!(g.get(c(m - 1, m - 1)));
}

#[test]
fn lone_cell_at_coordinate_limit_dies() {
    let mut g = grid_of(&[(i32::MIN, i32::MAX)]);
    g.step();
    assert!(!g.get(c(i32::MIN, i32::MAX)));
}

#[test]
fn cells_across_chunk_boundaries() {
    // A block straddling the chunk origin touches four different chunks.
    let mut g = grid_of(&[(-1, -1), (0, -1), (-1, 0), (0, 0)]);
    g.step();
    assert!(g.get(c(-1, -1)));
    assert!(g.get(c(0, -1)));
    assert!(g.get(c(-1, 0)));
    assert!(g.get(c(0, 0)));
}

#[test]
fn negative_coordinates_round_to_their_own_chunk() {
    let mut g = Grid::default();
    g.cycle(c(-129, -1));
    g.cycle(c(-128, -1));
    g.cycle(c(127, 128));
    assert!(g.get(c(-129, -1)));
    assert!(g.get(c(-128, -1)));
    assert!(g.get(c(127, 128)));
    assert!(!g.get(c(-127, -1)));
    let found = g.get_range(c(-200, -200), c(200, 200));
    assert_eq!(coords(found), vec![(-129, -1), (-128, -1), (127, 128)]);
}
