use game_of_life::game::{CellState, Grid};

#[test]
fn test_grid_creation() {
    let grid = Grid::new(10, 8);
    assert_eq!(grid.width(), 10);
    assert_eq!(grid.height(), 8);

    for y in 0..8 {
        for x in 0..10 {
            assert_eq!(grid.get_cell(x, y), &CellState::Dead);
        }
    }
}

#[test]
fn test_cell_manipulation() {
    let mut grid = Grid::new(5, 5);

    grid.set_cell(2, 2, CellState::Alive);
    assert_eq!(grid.get_cell(2, 2), &CellState::Alive);

    grid.toggle_cell(2, 2);
    assert_eq!(grid.get_cell(2, 2), &CellState::Dead);

    grid.toggle_cell(2, 2);
    assert_eq!(grid.get_cell(2, 2), &CellState::Alive);
}

#[test]
fn test_clear_grid() {
    let mut grid = Grid::new(3, 3);

    grid.set_cell(0, 0, CellState::Alive);
    grid.set_cell(1, 1, CellState::Alive);
    grid.set_cell(2, 2, CellState::Alive);

    grid.clear();

    for y in 0..3 {
        for x in 0..3 {
            assert_eq!(grid.get_cell(x, y), &CellState::Dead);
        }
    }
}

#[test]
fn test_neighbor_counting() {
    let mut grid = Grid::new(5, 5);

    grid.set_cell(2, 1, CellState::Alive);
    grid.set_cell(2, 2, CellState::Alive);
    grid.set_cell(2, 3, CellState::Alive);

    assert_eq!(grid.count_neighbors(2, 0), 1);
    assert_eq!(grid.count_neighbors(2, 1), 1);
    assert_eq!(grid.count_neighbors(2, 2), 2);
    assert_eq!(grid.count_neighbors(2, 3), 1);
    assert_eq!(grid.count_neighbors(2, 4), 1);

    assert_eq!(grid.count_neighbors(1, 2), 3);
    assert_eq!(grid.count_neighbors(3, 2), 3);
}

#[test]
fn test_blinker_pattern() {
    let mut grid = Grid::new(5, 5);

    grid.set_cell(1, 2, CellState::Alive);
    grid.set_cell(2, 2, CellState::Alive);
    grid.set_cell(3, 2, CellState::Alive);

    grid.next_generation();

    assert_eq!(grid.get_cell(1, 2), &CellState::Dead);
    assert_eq!(grid.get_cell(2, 1), &CellState::Alive);
    assert_eq!(grid.get_cell(2, 2), &CellState::Alive);
    assert_eq!(grid.get_cell(2, 3), &CellState::Alive);
    assert_eq!(grid.get_cell(3, 2), &CellState::Dead);

    grid.next_generation();

    assert_eq!(grid.get_cell(1, 2), &CellState::Alive);
    assert_eq!(grid.get_cell(2, 1), &CellState::Dead);
    assert_eq!(grid.get_cell(2, 2), &CellState::Alive);
    assert_eq!(grid.get_cell(2, 3), &CellState::Dead);
    assert_eq!(grid.get_cell(3, 2), &CellState::Alive);
}

#[test]
fn test_load_pattern() {
    let mut grid = Grid::new(10, 10);

    let pattern = &[" O ", "  O", "OOO"];

    grid.load_pattern(pattern, 3, 3);

    assert_eq!(grid.get_cell(3, 3), &CellState::Dead);
    assert_eq!(grid.get_cell(4, 3), &CellState::Alive);
    assert_eq!(grid.get_cell(5, 3), &CellState::Dead);

    assert_eq!(grid.get_cell(3, 4), &CellState::Dead);
    assert_eq!(grid.get_cell(4, 4), &CellState::Dead);
    assert_eq!(grid.get_cell(5, 4), &CellState::Alive);

    assert_eq!(grid.get_cell(3, 5), &CellState::Alive);
    assert_eq!(grid.get_cell(4, 5), &CellState::Alive);
    assert_eq!(grid.get_cell(5, 5), &CellState::Alive);
}

fn live_cells(grid: &Grid) -> Vec<(usize, usize)> {
    let mut out = Vec::new();
    for y in 0..grid.height() {
        for x in 0..grid.width() {
            if *grid.get_cell(x, y) == CellState::Alive {
                out.push((x, y));
            }
        }
    }
    out
}

fn same_cells(a: &Grid, b: &Grid) -> bool {
    a.width() == b.width() && a.height() == b.height() && live_cells(a) == live_cells(b)
}

#[test]
fn two_equal_grids_advance_alike() {
    let mut a = Grid::new(8, 6);
    let mut b = Grid::new(8, 6);
    for &(x, y) in &[(1, 1), (2, 1), (3, 1), (5, 3), (6, 4), (6, 3), (0, 5)] {
        a.set_cell(x, y, CellState::Alive);
        b.set_cell(x, y, CellState::Alive);
    }
    a.next_generation();
    b.next_generation();
    assert!(same_cells(&a, &b));
}

// The rule evaluated from a snapshot in reverse order, as a check that the
// order of evaluation does not matter.
fn reverse_order_step(grid: &Grid) -> Vec<(usize, usize)> {
    let mut alive = Vec::new();
    for y in (0..grid.height()).rev() {
        for x in (0..grid.width()).rev() {
            let n = grid.count_neighbors(x, y);
            let now = *grid.get_cell(x, y);
            if (now == CellState::Alive && (n == 2 || n == 3)) || (now == CellState::Dead && n == 3) {
                alive.push((x, y));
            }
        }
    }
    alive.sort_by_key(|&(x, y)| (y, x));
    alive
}

#[test]
fn next_generation_matches_reverse_order_evaluation() {
    let mut grid = Grid::new(7, 7);
    grid.load_pattern(&[" O ", "  O", "OOO"], 1, 1);
    grid.set_cell(6, 6, CellState::Alive);
    grid.set_cell(5, 6, CellState::Alive);
    let expected = reverse_order_step(&grid);
    grid.next_generation();
    assert_eq!(live_cells(&grid), expected);
}

#[test]
fn block_is_a_still_life() {
    let mut grid = Grid::new(4, 4);
    grid.load_pattern(&["OO", "OO"], 1, 1);
    let before = live_cells(&grid);
    assert_eq!(before, vec![(1, 1), (2, 1), (1, 2), (2, 2)]);
    grid.next_generation();
    assert_eq!(live_cells(&grid), before);
}

#[test]
fn blinker_loaded_centred_oscillates() {
    let mut grid = Grid::new(5, 5);
    grid.load_pattern(&["OOO"], 1, 2);
    assert_eq!(live_cells(&grid), vec![(1, 2), (2, 2), (3, 2)]);
    grid.next_generation();
    assert_eq!(live_cells(&grid), vec![(2, 1), (2, 2), (2, 3)]);
    grid.next_generation();
    assert_eq!(live_cells(&grid), vec![(1, 2), (2, 2), (3, 2)]);
}

#[test]
fn corner_cell_reaches_three_neighbours() {
    let mut grid = Grid::new(4, 4);
    grid.set_cell(0, 0, CellState::Alive);
    let mut touched = Vec::new();
    for y in 0..4 {
        for x in 0..4 {
            if grid.count_neighbors(x, y) > 0 {
                touched.push((x, y));
            }
        }
    }
    assert_eq!(touched, vec![(1, 0), (0, 1), (1, 1)]);

    let mut full = Grid::new(4, 4);
    full.randomize_seeded(7, 1 << 32);
    assert_eq!(full.count_neighbors(0, 0), 3);
    assert_eq!(full.count_neighbors(1, 1), 8);
    assert_eq!(full.count_neighbors(3, 3), 3);
    assert_eq!(full.count_neighbors(0, 2), 5);
}

#[test]
fn neighbours_off_the_grid_are_dead() {
    let mut grid = Grid::new(3, 3);
    grid.set_cell(2, 2, CellState::Alive);
    assert_eq!(grid.count_neighbors(3, 3), 1);
    assert_eq!(grid.count_neighbors(usize::MAX, usize::MAX), 0);
    assert_eq!(grid.count_neighbors(2, 2), 0);
}

#[test]
fn randomize_density_bounds() {
    let mut grid = Grid::new(40, 30);
    grid.randomize_seeded(12345, 0);
    assert_eq!(grid.count_alive(), 0);
    grid.randomize_seeded(12345, 1 << 32);
    assert_eq!(grid.count_alive(), 1200);
    grid.randomize_seeded(999, u64::MAX);
    assert_eq!(grid.count_alive(), 1200);
}

#[test]
fn randomize_follows_the_generator() {
    let mut grid = Grid::new(3, 2);
    let seed: u64 = 42;
    let threshold: u64 = 1 << 31;
    grid.randomize_seeded(seed, threshold);
    let mut state = seed;
    for y in 0..2 {
        for x in 0..3 {
            state = state.wrapping_mul(1664525).wrapping_add(1013904223);
            let expected = if (state >> 32) < threshold { CellState::Alive } else { CellState::Dead };
            assert_eq!(*grid.get_cell(x, y), expected);
        }
    }
    let mut big = Grid::new(100, 100);
    big.randomize_seeded(2024, 1 << 31);
    let alive = big.count_alive();
    assert!(alive > 4000 && alive < 6000);
}

#[test]
fn clear_twice_gives_the_same_dead_grid() {
    let mut grid = Grid::new(6, 4);
    grid.randomize_seeded(5, 1 << 31);
    grid.clear();
    assert_eq!(grid.count_alive(), 0);
    assert_eq!((grid.width(), grid.height()), (6, 4));
    grid.clear();
    assert_eq!(grid.count_alive(), 0);
    assert_eq!((grid.width(), grid.height()), (6, 4));
}

#[test]
fn load_pattern_clears_cells_outside_it() {
    let mut grid = Grid::new(8, 8);
    grid.set_cell(0, 0, CellState::Alive);
    grid.set_cell(7, 7, CellState::Alive);
    grid.set_cell(4, 4, CellState::Alive);
    grid.load_pattern(&["O*#", "x. "], 2, 2);
    assert_eq!(live_cells(&grid), vec![(2, 2), (3, 2), (4, 2)]);
}

#[test]
fn load_pattern_clips_at_the_edges() {
    let mut grid = Grid::new(4, 3);
    grid.load_pattern(&["OOOOOO", "O", "", "OOOO"], 2, 1);
    assert_eq!(live_cells(&grid), vec![(2, 1), (3, 1), (2, 2)]);
    grid.load_pattern(&["OO"], 10, 0);
    assert_eq!(grid.count_alive(), 0);
    grid.load_pattern(&["OO"], usize::MAX, usize::MAX);
    assert_eq!(grid.count_alive(), 0);
}

#[test]
fn out_of_bounds_writes_are_ignored() {
    let mut grid = Grid::new(2, 2);
    grid.set_cell(2, 0, CellState::Alive);
    grid.toggle_cell(0, 5);
    assert_eq!(grid.count_alive(), 0);
}

#[test]
fn default_grid_is_fifty_square() {
    let grid = Grid::default();
    assert_eq!(grid.width(), 50);
    assert_eq!(grid.height(), 50);
    assert_eq!(grid.count_alive(), 0);
}

#[test]
fn zero_sized_grid_is_empty() {
    let mut grid = Grid::new(0, 3);
    grid.next_generation();
    grid.set_cell(0, 0, CellState::Alive);
    assert_eq!(grid.count_alive(), 0);
    assert_eq!(grid.height(), 3);
}

#[test]
fn opposite_state() {
    assert_eq!(CellState::Alive.opposite(), CellState::Dead);
    assert_eq!(CellState::Dead.opposite(), CellState::Alive);
}
