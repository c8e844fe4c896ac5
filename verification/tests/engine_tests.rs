use tetris_core::engine::{collapse_rows, row_is_full};
use tetris_core::grid::{is_legal, Cell, Grid, BOARD_HEIGHT, BOARD_WIDTH};
use tetris_core::pieces::{Piece, PieceKind};

fn snapshot(g: &Grid) -> Vec<Cell> {
    let mut cells = Vec::new();
    for x in 0..BOARD_WIDTH {
        for y in 0..BOARD_HEIGHT {
            cells.push(g.cell_at(x, y));
        }
    }
    cells
}

#[test]
fn collapse_without_full_rows_changes_nothing() {
    let mut g = Grid::new();
    g.set_cell(3, 23, Cell::Locked);
    g.set_cell(5, 10, Cell::Locked);
    g.set_cell(11, 0, Cell::Locked);
    let before = snapshot(&g);
    let cleared = collapse_rows(&mut g);
    assert_eq!(cleared, 0);
    assert_eq!(snapshot(&g), before);
}

#[test]
fn collapse_removes_full_row_and_shifts_rows_above() {
    let mut g = Grid::new();
    for x in 2..12 {
        g.set_cell(x, 20, Cell::Locked);
    }
    g.set_cell(4, 19, Cell::Locked);
    g.set_cell(6, 21, Cell::Locked);
    assert!(row_is_full(&g, 20));
    assert!(!row_is_full(&g, 19));
    let cleared = collapse_rows(&mut g);
    assert_eq!(cleared, 1);
    let mut locked = 0;
    for x in 2..12 {
        for y in 0..24 {
            if g.cell_at(x, y) == Cell::Locked {
                locked += 1;
            }
        }
    }
    assert_eq!(locked, 2);
    assert_eq!(g.cell_at(4, 20), Cell::Locked);
    assert_eq!(g.cell_at(4, 19), Cell::Empty);
    assert_eq!(g.cell_at(6, 21), Cell::Locked);
}

#[test]
fn collapse_removes_two_rows_at_once() {
    let mut g = Grid::new();
    for x in 2..12 {
        g.set_cell(x, 22, Cell::Locked);
        g.set_cell(x, 23, Cell::Locked);
    }
    g.set_cell(9, 21, Cell::Locked);
    let cleared = collapse_rows(&mut g);
    assert_eq!(cleared, 2);
    assert_eq!(g.cell_at(9, 23), Cell::Locked);
    assert_eq!(g.cell_at(9, 21), Cell::Empty);
    assert_eq!(g.cell_at(9, 22), Cell::Empty);
}

#[test]
fn validator_decides_on_empty_border_locked_and_out_of_bounds() {
    let mut g = Grid::new();
    let free = Piece { kind: PieceKind::O, rotation: 0, x: 5, y: 5 };
    assert!(is_legal(&g, &free));
    let on_border_column = Piece { kind: PieceKind::O, rotation: 0, x: 1, y: 5 };
    assert!(!is_legal(&g, &on_border_column));
    let on_floor = Piece { kind: PieceKind::O, rotation: 0, x: 5, y: 23 };
    assert!(!is_legal(&g, &on_floor));
    let out_of_bounds = Piece { kind: PieceKind::O, rotation: 0, x: 13, y: 5 };
    assert!(!is_legal(&g, &out_of_bounds));
    g.set_cell(5, 5, Cell::Locked);
    assert!(!is_legal(&g, &free));
    g.set_cell(5, 5, Cell::Falling);
    assert!(is_legal(&g, &free));
}
