use tetris_core::game::{BoardState, GameCore, InputEvent};
use tetris_core::grid::{Cell, BOARD_HEIGHT, BOARD_WIDTH};
use tetris_core::pieces::{occupied_offsets, Piece, PieceKind};

fn spawn_pose_of(k: PieceKind) -> Piece {
    if k == PieceKind::I {
        Piece { kind: k, rotation: 1, x: 6, y: 0 }
    } else {
        Piece { kind: k, rotation: 0, x: 6, y: 2 }
    }
}

fn board_snapshot(gc: &GameCore) -> Vec<Cell> {
    let mut cells = Vec::new();
    for x in 0..BOARD_WIDTH {
        for y in 0..BOARD_HEIGHT {
            cells.push(gc.cell_at(x, y));
        }
    }
    cells
}

#[test]
fn new_game_starts_clean() {
    let gc = GameCore::new_game();
    assert_eq!(gc.state(), BoardState::Moving);
    assert_eq!(gc.score(), 0);
    assert_eq!(gc.level(), 0);
    assert_eq!(gc.lines(), 0);
    let p = gc.active_piece();
    assert_eq!(p, spawn_pose_of(p.kind));
    assert_eq!(gc.cell_at(1, 0), Cell::Border);
    assert_eq!(gc.cell_at(12, 24), Cell::Border);
    assert_eq!(gc.cell_at(5, 24), Cell::Border);
    assert_eq!(gc.cell_at(5, 23), Cell::Empty);
}

#[test]
fn hard_drop_on_open_board_spawns_next_piece_without_scoring() {
    let mut gc = GameCore::new_game();
    for _ in 0..3 {
        assert_eq!(gc.state(), BoardState::Moving);
        gc.on_input(InputEvent::HardDrop);
        assert_eq!(gc.state(), BoardState::Moving);
        let p = gc.active_piece();
        assert_eq!(p, spawn_pose_of(p.kind));
        assert_eq!(gc.score(), 0);
        assert_eq!(gc.lines(), 0);
    }
}

#[test]
fn completing_a_row_clears_scores_and_shifts() {
    let mut gc = GameCore::new_game();
    let p = gc.active_piece();
    let offs = occupied_offsets(p.kind, p.rotation);
    let mut max_dy = 0;
    for i in 0..4 {
        if offs[i].1 > max_dy {
            max_dy = offs[i].1;
        }
    }
    let mut bottom_cols = Vec::new();
    for i in 0..4 {
        if offs[i].1 == max_dy {
            bottom_cols.push(p.x + offs[i].0);
        }
    }
    for x in 2..12 {
        if !bottom_cols.contains(&x) {
            gc.place_locked(x, 23);
        }
    }
    gc.on_input(InputEvent::HardDrop);
    assert_eq!(gc.state(), BoardState::Clearing);
    assert_eq!(gc.score(), 0);
    // while clearing, movement input and a pause request are ignored
    gc.on_input(InputEvent::Left);
    gc.on_input(InputEvent::PauseToggle);
    assert_eq!(gc.state(), BoardState::Clearing);
    gc.on_tick(1);
    assert_eq!(gc.state(), BoardState::Moving);
    assert_eq!(gc.score(), 40);
    assert_eq!(gc.lines(), 1);
    assert_eq!(gc.level(), 0);
    // the settled cells above the cleared row moved down by exactly one
    for i in 0..4 {
        if offs[i].1 < max_dy {
            let cx = p.x + offs[i].0;
            let cy = 23 - max_dy + offs[i].1 + 1;
            assert_eq!(gc.cell_at(cx, cy), Cell::Locked);
        }
    }
    // the filler material in the cleared row is gone
    assert_eq!(gc.cell_at(2, 23), Cell::Empty);
}

#[test]
fn blocked_spawn_ends_the_game() {
    let mut gc = GameCore::new_game();
    for _ in 0..6 {
        gc.on_input(InputEvent::SoftDrop);
        assert_eq!(gc.state(), BoardState::Moving);
    }
    let sp = spawn_pose_of(gc.preview_piece().kind);
    let offs = occupied_offsets(sp.kind, sp.rotation);
    for i in 0..4 {
        gc.place_locked(sp.x + offs[i].0, sp.y + offs[i].1);
    }
    gc.on_input(InputEvent::HardDrop);
    assert_eq!(gc.state(), BoardState::Over);
    // a finished game ignores gameplay input and gravity
    let score = gc.score();
    gc.on_input(InputEvent::HardDrop);
    gc.on_input(InputEvent::PauseToggle);
    gc.on_tick(4);
    assert_eq!(gc.state(), BoardState::Over);
    assert_eq!(gc.score(), score);
}

#[test]
fn pause_freezes_grid_piece_and_score() {
    let mut gc = GameCore::new_game();
    gc.on_input(InputEvent::PauseToggle);
    assert_eq!(gc.state(), BoardState::Paused);
    let piece = gc.active_piece();
    let score = gc.score();
    let cells = board_snapshot(&gc);
    gc.on_tick(5);
    gc.on_input(InputEvent::Left);
    gc.on_input(InputEvent::Right);
    gc.on_input(InputEvent::Rotate);
    gc.on_input(InputEvent::SoftDrop);
    gc.on_input(InputEvent::HardDrop);
    assert_eq!(gc.state(), BoardState::Paused);
    assert_eq!(gc.active_piece(), piece);
    assert_eq!(gc.score(), score);
    assert_eq!(board_snapshot(&gc), cells);
    gc.on_input(InputEvent::PauseToggle);
    assert_eq!(gc.state(), BoardState::Moving);
    assert_eq!(gc.active_piece(), piece);
    assert_eq!(gc.score(), score);
    assert_eq!(board_snapshot(&gc), cells);
}

#[test]
fn movement_and_rotation_respect_the_validator() {
    let mut gc = GameCore::new_game();
    let p0 = gc.active_piece();
    gc.on_input(InputEvent::Left);
    assert_eq!(gc.active_piece().x, p0.x - 1);
    gc.on_input(InputEvent::Right);
    assert_eq!(gc.active_piece().x, p0.x);
    gc.on_input(InputEvent::Rotate);
    let rotated = gc.active_piece();
    assert_eq!(rotated.rotation, (p0.rotation + 1) % 4);
    // walk left until the wall stops the piece; one more press changes nothing
    for _ in 0..20 {
        gc.on_input(InputEvent::Left);
    }
    let at_wall = gc.active_piece();
    gc.on_input(InputEvent::Left);
    assert_eq!(gc.active_piece(), at_wall);
    assert_eq!(gc.state(), BoardState::Moving);
}

#[test]
fn quit_leaves_the_core_untouched() {
    let mut gc = GameCore::new_game();
    let piece = gc.active_piece();
    let cells = board_snapshot(&gc);
    gc.on_input(InputEvent::Quit);
    assert_eq!(gc.state(), BoardState::Moving);
    assert_eq!(gc.active_piece(), piece);
    assert_eq!(board_snapshot(&gc), cells);
}

#[test]
fn soft_drop_moves_one_row_down() {
    let mut gc = GameCore::new_game();
    let p0 = gc.active_piece();
    gc.on_input(InputEvent::SoftDrop);
    let p1 = gc.active_piece();
    assert_eq!(p1.y, p0.y + 1);
    assert_eq!(p1.x, p0.x);
    assert_eq!(gc.state(), BoardState::Moving);
}

#[test]
fn footprint_is_anchor_plus_offsets_and_drawn_as_falling() {
    let gc = GameCore::new_game();
    let p = gc.active_piece();
    let cells = tetris_core::grid::piece_footprint(&p);
    let offs = occupied_offsets(p.kind, p.rotation);
    for i in 0..4 {
        assert_eq!(cells[i], (p.x + offs[i].0, p.y + offs[i].1));
        assert_eq!(gc.cell_at(cells[i].0, cells[i].1), Cell::Falling);
    }
    let mut falling = 0;
    for x in 0..BOARD_WIDTH {
        for y in 0..BOARD_HEIGHT {
            if gc.cell_at(x, y) == Cell::Falling {
                falling += 1;
            }
        }
    }
    assert_eq!(falling, 4);
}

#[test]
fn preview_announces_the_next_piece() {
    let mut gc = GameCore::new_game();
    for _ in 0..5 {
        let expected = gc.preview_piece().kind;
        gc.on_input(InputEvent::HardDrop);
        assert_eq!(gc.state(), BoardState::Moving);
        assert_eq!(gc.active_piece().kind, expected);
    }
}

#[test]
fn border_frame_survives_play() {
    let mut gc = GameCore::new_game();
    for _ in 0..4 {
        gc.on_input(InputEvent::Left);
        gc.on_input(InputEvent::Rotate);
        gc.on_input(InputEvent::HardDrop);
        gc.on_tick(1);
    }
    for y in 0..25 {
        assert_eq!(gc.cell_at(1, y), Cell::Border);
        assert_eq!(gc.cell_at(12, y), Cell::Border);
    }
    for x in 1..13 {
        assert_eq!(gc.cell_at(x, 24), Cell::Border);
    }
    for y in 0..25 {
        assert_ne!(gc.cell_at(0, y), Cell::Border);
        assert_ne!(gc.cell_at(13, y), Cell::Border);
    }
}

#[test]
fn gravity_tick_moves_the_piece_down() {
    let mut gc = GameCore::new_game();
    let p0 = gc.active_piece();
    gc.on_tick(2);
    let p1 = gc.active_piece();
    assert_eq!(p1.y, p0.y + 2);
}
