use game_of_life::{Universe, UniverseError};

fn grid(rows: usize, cols: usize, live: &[(usize, usize)]) -> Universe {
    let live: Vec<usize> = live.iter().map(|&(r, c)| r * cols + c).collect();
    match Universe::new(rows, cols, |i| live.contains(&i)) {
        Ok(u) => u,
        Err(e) => panic!("could not build a {}x{} grid: {:?}", rows, cols, e),
    }
}

fn live_cells(u: &Universe) -> Vec<(usize, usize)> {
    let (rows, cols) = u.dimensions();
    let mut out = Vec::new();
    for r in 0..rows {
        for c in 0..cols {
            if u.is_alive(r, c) {
                out.push((r, c));
            }
        }
    }
    out
}

#[test]
fn zero_rows_is_rejected() {
    let r = Universe::new(0, 5, |_| true);
    assert!(matches!(r, Err(UniverseError::InvalidDimensions)));
}

#[test]
fn zero_cols_is_rejected() {
    let r = Universe::new(5, 0, |_| true);
    assert!(matches!(r, Err(UniverseError::InvalidDimensions)));
}

#[test]
fn zero_by_zero_is_rejected() {
    let r = Universe::new(0, 0, |_| false);
    assert!(matches!(r, Err(UniverseError::InvalidDimensions)));
}

#[test]
fn seed_decides_each_cell() {
    let u = Universe::new(2, 3, |i| i % 2 == 1).unwrap();
    assert_eq!(u.dimensions(), (2, 3));
    assert_eq!(u.cells(), vec![false, true, false, true, false, true]);
    assert!(u.is_alive(0, 1));
    assert!(!u.is_alive(1, 1));
    assert!(u.is_alive(1, 2));
}

#[test]
fn tick_keeps_dimensions() {
    for &(rows, cols) in &[(1, 1), (1, 7), (7, 1), (3, 4), (6, 2)] {
        let mut u = Universe::new(rows, cols, |i| i % 3 == 0).unwrap();
        for _ in 0..4 {
            u.tick();
            assert_eq!(u.dimensions(), (rows, cols));
            assert_eq!(u.cells().len(), rows * cols);
        }
    }
}

#[test]
fn glider_moves_one_phase() {
    let mut u = grid(5, 5, &[(0, 1), (1, 2), (2, 0), (2, 1), (2, 2)]);
    u.tick();
    assert_eq!(live_cells(&u), vec![(1, 0), (1, 2), (2, 1), (2, 2), (3, 1)]);
}

#[test]
fn glider_returns_shifted_after_four_ticks() {
    let mut u = grid(5, 5, &[(0, 1), (1, 2), (2, 0), (2, 1), (2, 2)]);
    for _ in 0..4 {
        u.tick();
    }
    assert_eq!(live_cells(&u), vec![(1, 2), (2, 3), (3, 1), (3, 2), (3, 3)]);
}

#[test]
fn block_is_still() {
    let block = [(1, 1), (1, 2), (2, 1), (2, 2)];
    let mut u = grid(4, 4, &block);
    u.tick();
    assert_eq!(live_cells(&u), block.to_vec());
    u.tick();
    assert_eq!(live_cells(&u), block.to_vec());
}

#[test]
fn block_at_the_corner_is_still() {
    let block = [(3, 4), (3, 5), (4, 4), (4, 5)];
    let mut u = grid(5, 6, &block);
    u.tick();
    assert_eq!(live_cells(&u), block.to_vec());
}

#[test]
fn blinker_turns() {
    let mut u = grid(5, 5, &[(1, 2), (2, 2), (3, 2)]);
    u.tick();
    assert_eq!(live_cells(&u), vec![(2, 1), (2, 2), (2, 3)]);
    u.tick();
    assert_eq!(live_cells(&u), vec![(1, 2), (2, 2), (3, 2)]);
}

#[test]
fn empty_grid_stays_empty() {
    for &(rows, cols) in &[(1, 1), (1, 5), (4, 1), (3, 3), (8, 5)] {
        let mut u = Universe::new(rows, cols, |_| false).unwrap();
        for _ in 0..5 {
            u.tick();
            assert!(u.cells().iter().all(|&b| !b));
        }
    }
}

#[test]
fn opposite_corner_counts_as_neighbour() {
    // (0, 0) is dead; its only live neighbours lie across the edges.
    let mut u = grid(5, 5, &[(4, 4), (4, 0), (0, 4)]);
    u.tick();
    assert!(u.is_alive(0, 0));
}

#[test]
fn last_row_neighbours_first_row() {
    // (0, 2) is dead with three live neighbours, all in the last row.
    let mut u = grid(5, 5, &[(4, 1), (4, 2), (4, 3)]);
    u.tick();
    assert!(u.is_alive(0, 2));
    assert!(u.is_alive(3, 2));
}

#[test]
fn last_column_neighbours_first_column() {
    let mut u = grid(5, 5, &[(1, 4), (2, 4), (3, 4)]);
    u.tick();
    assert!(u.is_alive(2, 0));
    assert!(u.is_alive(2, 3));
}

#[test]
fn lone_corner_cell_dies() {
    let mut u = grid(4, 4, &[(3, 3)]);
    u.tick();
    assert!(live_cells(&u).is_empty());
}

#[test]
fn overcrowded_cell_dies() {
    // (2, 2) has four live neighbours.
    let mut u = grid(5, 5, &[(2, 2), (1, 1), (1, 3), (3, 1), (3, 3)]);
    u.tick();
    assert!(!u.is_alive(2, 2));
}

#[test]
fn cell_with_two_neighbours_survives() {
    let mut u = grid(6, 6, &[(2, 2), (1, 1), (3, 3)]);
    u.tick();
    assert!(u.is_alive(2, 2));
}

#[test]
fn single_live_cell_on_one_by_one_dies() {
    // The only cell is its own neighbour eight times over.
    let mut u = Universe::new(1, 1, |_| true).unwrap();
    u.tick();
    assert_eq!(u.cells(), vec![false]);
}

#[test]
fn full_two_by_two_dies() {
    // Every cell sees each of the other three twice or more: eight live neighbours.
    let mut u = Universe::new(2, 2, |_| true).unwrap();
    u.tick();
    assert_eq!(u.cells(), vec![false; 4]);
}

#[test]
fn next_generation_is_computed_from_the_previous_one() {
    // On a 3x3 torus every cell neighbours all eight others. With the top row
    // alive, live cells see two and dead cells see three, so all nine are
    // alive next; reading cells already updated would leave some dead.
    let mut u = grid(3, 3, &[(0, 0), (0, 1), (0, 2)]);
    u.tick();
    assert_eq!(u.cells(), vec![true; 9]);
}
