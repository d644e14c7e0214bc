use game_of_life::game::{CellState, Grid};
use game_of_life::game_state::{alive_cells, check_cells, check_dimensions, grid_from_cells, StateError};
use game_of_life::theme::ColorTheme;

#[test]
fn alive_cells_row_by_row() {
    let mut grid = Grid::new(5, 5);
    grid.set_cell(2, 2, CellState::Alive);
    grid.set_cell(1, 1, CellState::Alive);
    grid.set_cell(4, 1, CellState::Alive);
    assert_eq!(alive_cells(&grid), vec![(1, 1), (4, 1), (2, 2)]);
    assert_eq!(alive_cells(&Grid::new(3, 3)), vec![]);
}

#[test]
fn grid_from_listed_cells() {
    let grid = grid_from_cells(3, 3, &vec![(0, 0), (1, 1), (2, 2)]).unwrap();
    assert_eq!(grid.width(), 3);
    assert_eq!(grid.height(), 3);
    assert_eq!(*grid.get_cell(0, 0), CellState::Alive);
    assert_eq!(*grid.get_cell(1, 1), CellState::Alive);
    assert_eq!(*grid.get_cell(2, 2), CellState::Alive);
    assert_eq!(*grid.get_cell(0, 1), CellState::Dead);
    assert_eq!(grid.count_alive(), 3);
}

#[test]
fn grid_from_cells_refusals() {
    assert_eq!(grid_from_cells(0, 5, &vec![]).err(), Some(StateError::ZeroDimensions));
    assert_eq!(
        grid_from_cells(3, 3, &vec![(1, 1), (5, 5), (7, 0)]).err(),
        Some(StateError::CellOutOfBounds(5, 5))
    );
    assert_eq!(check_dimensions(4, 0), Err(StateError::ZeroDimensions));
    assert_eq!(check_dimensions(4, 2), Ok(()));
    assert_eq!(check_cells(3, 3, &vec![(2, 2), (0, 3)]), Err(StateError::CellOutOfBounds(0, 3)));
    assert_eq!(check_cells(3, 3, &vec![(2, 2), (0, 1)]), Ok(()));
}

#[test]
fn saved_cells_restore_the_grid() {
    let mut grid = Grid::new(7, 4);
    grid.load_pattern(&[" O ", "  O", "OOO"], 2, 0);
    let cells = alive_cells(&grid);
    let back = grid_from_cells(7, 4, &cells).unwrap();
    assert_eq!(alive_cells(&back), cells);
}

#[test]
fn theme_toggles_between_the_two() {
    assert_eq!(ColorTheme::Light.toggled(), ColorTheme::Dark);
    assert_eq!(ColorTheme::Dark.toggled(), ColorTheme::Light);
}
