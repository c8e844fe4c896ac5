use vstd::prelude::*;

use crate::bag::{bag_complete, TetQueue};
use crate::engine::{
    collapse_rows, collapse_spec, full_count, has_full_row_from, kept_from, lemma_collapse_cell,
    lemma_collapse_no_full, lemma_full_count_pos, lemma_kept_elems, lemma_kept_len,
    lemma_kept_single, lemma_lock_full_rows, lemma_row_full_congruent,
    lemma_single_full_row_unique, lemma_update_frame, row_full, score_delta, spec_score_table,
};
use crate::grid::{
    border_pos, grid_cell, in_grid, init_cell, lemma_plot_cell, lemma_plot_len, piece_in_bounds,
    playable, plot_spec, spec_is_legal, is_legal, passable, Cell, Grid,
};
use crate::pieces::{
    kind_of_code, lemma_offsets_bounds, piece_cells, piece_covers, set_next_piece, spawn_piece,
    spec_set_next_piece, spec_spawn_piece, Piece, PieceKind,
};

verus! {

/// The phase the board is in, governing which operations a tick or an
/// input may perform.
#[derive(Clone, Copy, Debug, PartialEq, Eq, Structural)]
pub enum BoardState {
    /// The active piece falls and answers to input.
    Moving,
    /// Full rows were found; the board is frozen for one tick before they
    /// collapse.
    Clearing,
    /// Gravity and movement are suspended.
    Paused,
    /// A fresh piece had no room to spawn; the game is over.
    Over,
}

/// One discrete input event delivered by the shell.
#[derive(Clone, Copy, Debug, PartialEq, Eq, Structural)]
pub enum InputEvent {
    Rotate,
    Left,
    Right,
    SoftDrop,
    HardDrop,
    PauseToggle,
    Quit,
}

/// Everything the shell can observe of a game, as one mathematical value;
/// the contracts of the state machine relate snapshots before and after.
pub struct Snapshot {
    pub grid: Seq<Cell>,
    pub piece: Piece,
    pub preview: Piece,
    pub queue: Seq<u8>,
    pub state: BoardState,
    pub score: u64,
    pub level: u32,
    pub lines: u32,
}

/// No cell of the board is a Border cell except the perimeter, and the
/// whole perimeter is Border.
pub open spec fn borders_ok(g: Seq<Cell>) -> bool {
    forall|x: int, y: int|
        in_grid(x, y) ==> ((#[trigger] grid_cell(g, x, y) == Cell::Border) <==> border_pos(x, y))
}

/// No cell of the board is marked Falling.
pub open spec fn no_falling(g: Seq<Cell>) -> bool {
    forall|x: int, y: int| in_grid(x, y) ==> #[trigger] grid_cell(g, x, y) != Cell::Falling
}

/// The Falling cells of the board are exactly the active piece's cells.
pub open spec fn falling_matches(g: Seq<Cell>, p: Piece) -> bool {
    forall|x: int, y: int|
        in_grid(x, y) ==> ((#[trigger] grid_cell(g, x, y) == Cell::Falling) <==> piece_covers(
            p,
            x,
            y,
        ))
}

/// No playable row is full.
pub open spec fn no_full_rows(g: Seq<Cell>) -> bool {
    forall|y: int| 0 <= y < 24 ==> !(#[trigger] row_full(g, y))
}

/// The active piece moved one cell down.
pub open spec fn down(p: Piece) -> Piece {
    Piece { y: (p.y + 1) as usize, ..p }
}

/// The active piece turned one rotation step, wrapping from 3 to 0.
pub open spec fn rotated(p: Piece) -> Piece {
    Piece {
        rotation: if p.rotation >= 3 {
            0
        } else {
            (p.rotation + 1) as u8
        },
        ..p
    }
}

/// The active piece moved one column to the left.
pub open spec fn shifted_left(p: Piece) -> Piece {
    Piece { x: (p.x - 1) as usize, ..p }
}

/// The active piece moved one column to the right.
pub open spec fn shifted_right(p: Piece) -> Piece {
    Piece { x: (p.x + 1) as usize, ..p }
}

/// The snapshot after committing a move of the active piece to `cand`:
/// the old footprint is erased, the new one drawn.
pub open spec fn moved_to(a: Snapshot, cand: Piece) -> Snapshot {
    Snapshot {
        piece: cand,
        grid: plot_spec(plot_spec(a.grid, a.piece, Cell::Empty), cand, Cell::Falling),
        ..a
    }
}

/// A movement or rotation attempt: committed when the candidate pose is
/// legal, otherwise ignored.
pub open spec fn shift_rel(a: Snapshot, b: Snapshot, cand: Piece) -> bool {
    if spec_is_legal(a.grid, cand) {
        b == moved_to(a, cand)
    } else {
        b == a
    }
}

/// One draw from the piece queue: the head goes, and when the head was the
/// last code a freshly shuffled bag takes its place.
pub open spec fn queue_step(q0: Seq<u8>, q1: Seq<u8>) -> bool {
    if q0.len() > 1 {
        q1 == q0.drop_first()
    } else {
        bag_complete(q1)
    }
}

/// Spawning the next piece: the dealt kind comes off the queue, the piece
/// takes its spawn pose, the preview advances, and the spawn either fits
/// (play goes on) or the game is over.
pub open spec fn spawn_rel(a: Snapshot, b: Snapshot) -> bool {
    let sp = spec_spawn_piece(kind_of_code(a.queue[0]));
    &&& queue_step(a.queue, b.queue)
    &&& b.preview == spec_set_next_piece(kind_of_code(b.queue[0]))
    &&& b.piece == sp
    &&& b.score == a.score
    &&& b.level == a.level
    &&& b.lines == a.lines
    &&& if spec_is_legal(a.grid, sp) {
        b.state == BoardState::Moving && b.grid == plot_spec(a.grid, sp, Cell::Falling)
    } else {
        b.state == BoardState::Over && b.grid == a.grid
    }
}

/// Locking the active piece where it stands: its cells settle; if that
/// completes any row the board freezes to clear, otherwise the next piece
/// spawns at once.
pub open spec fn lock_rel(a: Snapshot, b: Snapshot) -> bool {
    let g1 = plot_spec(a.grid, a.piece, Cell::Locked);
    if full_count(g1) > 0 {
        b == Snapshot { grid: g1, state: BoardState::Clearing, ..a }
    } else {
        spawn_rel(Snapshot { grid: g1, ..a }, b)
    }
}

/// One gravity step in the Moving phase: move down if legal, else lock.
pub open spec fn down_rel(a: Snapshot, b: Snapshot) -> bool {
    if spec_is_legal(a.grid, down(a.piece)) {
        b == moved_to(a, down(a.piece))
    } else {
        lock_rel(a, b)
    }
}

/// The board and piece after dropping the active piece straight down as
/// far as it goes.
pub open spec fn spec_hard_drop(g: Seq<Cell>, p: Piece) -> (Seq<Cell>, Piece)
    decreases 26 - p.y,
{
    let cand = down(p);
    if p.y >= 26 || !spec_is_legal(g, cand) {
        (g, p)
    } else {
        spec_hard_drop(plot_spec(plot_spec(g, p, Cell::Empty), cand, Cell::Falling), cand)
    }
}

/// A hard drop: descend until blocked, then lock at once.
pub open spec fn hard_drop_rel(a: Snapshot, b: Snapshot) -> bool {
    lock_rel(
        Snapshot {
            grid: spec_hard_drop(a.grid, a.piece).0,
            piece: spec_hard_drop(a.grid, a.piece).1,
            ..a
        },
        b,
    )
}

/// The resolving tick of the Clearing phase: full rows collapse, the score
/// grows by the table formula at the level in effect when the rows clear
/// (saturating at the counter's width), lines and level then advance, and
/// the next piece spawns.
pub open spec fn clearing_rel(a: Snapshot, b: Snapshot) -> bool {
    let cl = full_count(a.grid);
    let g1 = collapse_spec(a.grid);
    let delta = spec_score_table(cl as u32) * (a.level + 1);
    let score2 = if a.score + delta <= u64::MAX {
        a.score + delta
    } else {
        u64::MAX as int
    };
    let lines1 = a.lines + cl;
    let lines2 = if lines1 >= 10 {
        lines1 - 10
    } else {
        lines1
    };
    let level2 = if lines1 >= 10 {
        if a.level < u32::MAX {
            a.level + 1
        } else {
            a.level as int
        }
    } else {
        a.level as int
    };
    spawn_rel(
        Snapshot {
            grid: g1,
            lines: lines2 as u32,
            level: level2 as u32,
            score: score2 as u64,
            ..a
        },
        b,
    )
}

/// What one gravity tick does in each phase.
pub open spec fn tick_rel(a: Snapshot, b: Snapshot) -> bool {
    match a.state {
        BoardState::Moving => down_rel(a, b),
        BoardState::Clearing => clearing_rel(a, b),
        BoardState::Paused => b == a,
        BoardState::Over => b == a,
    }
}

/// What one input event does in each phase. Everything but the pause
/// toggle is ignored outside Moving, and the pause toggle only flips
/// between Moving and Paused; Quit is the shell's business and leaves the
/// core untouched.
pub open spec fn input_rel(a: Snapshot, ev: InputEvent, b: Snapshot) -> bool {
    match a.state {
        BoardState::Moving => match ev {
            InputEvent::Rotate => shift_rel(a, b, rotated(a.piece)),
            InputEvent::Left => if a.piece.x > 0 {
                shift_rel(a, b, shifted_left(a.piece))
            } else {
                b == a
            },
            InputEvent::Right => shift_rel(a, b, shifted_right(a.piece)),
            InputEvent::SoftDrop => down_rel(a, b),
            InputEvent::HardDrop => hard_drop_rel(a, b),
            InputEvent::PauseToggle => b == Snapshot { state: BoardState::Paused, ..a },
            InputEvent::Quit => b == a,
        },
        BoardState::Paused => if ev == InputEvent::PauseToggle {
            b == Snapshot { state: BoardState::Moving, ..a }
        } else {
            b == a
        },
        BoardState::Clearing => b == a,
        BoardState::Over => b == a,
    }
}

/// The rule engine's whole state: the playfield, the active and preview
/// pieces, the bag queue, the phase, and the counters.
pub struct GameCore {
    pub grid: Grid,
    pub piece: Piece,
    pub preview: Piece,
    pub queue: TetQueue,
    pub state: BoardState,
    pub score: u64,
    pub level: u32,
    pub lines: u32,
}

impl GameCore {
    /// The observable value of this state.
    pub open spec fn obs(&self) -> Snapshot {
        Snapshot {
            grid: self.grid@,
            piece: self.piece,
            preview: self.preview,
            queue: self.queue@,
            state: self.state,
            score: self.score,
            level: self.level,
            lines: self.lines,
        }
    }

    /// The invariant every public operation preserves: the board is whole
    /// with its perimeter in place; the active piece is a sane pose on the
    /// board; the queue is a sound bag remainder and the preview mirrors
    /// its head; and the board contents agree with the phase - while the
    /// piece moves its cells are the only Falling ones and no row is full,
    /// while clearing there are one to four full rows and no Falling cell,
    /// and after the game ends no Falling cell remains.
    pub open spec fn wf(&self) -> bool {
        &&& self.grid.wf()
        &&& borders_ok(self.grid@)
        &&& self.piece.rotation < 4
        &&& piece_in_bounds(self.piece)
        &&& self.queue.wf()
        &&& self.preview == spec_set_next_piece(kind_of_code(self.queue@[0]))
        &&& self.lines < 10
        &&& ((self.state == BoardState::Moving || self.state == BoardState::Paused)
            ==> (falling_matches(self.grid@, self.piece) && no_full_rows(self.grid@)))
        &&& (self.state == BoardState::Clearing ==> (no_falling(self.grid@) && 1 <= full_count(
            self.grid@,
        ) <= 4))
        &&& (self.state == BoardState::Over ==> no_falling(self.grid@))
    }
}

/// Pointwise reading of an erase-and-redraw pair of stamps.
proof fn lemma_double_plot_cell(g: Seq<Cell>, p: Piece, cand: Piece, x: int, y: int)
    requires
        g.len() == 14 * 26,
        piece_in_bounds(p),
        piece_in_bounds(cand),
        in_grid(x, y),
    ensures
        grid_cell(plot_spec(plot_spec(g, p, Cell::Empty), cand, Cell::Falling), x, y)
            == if piece_covers(cand, x, y) {
            Cell::Falling
        } else if piece_covers(p, x, y) {
            Cell::Empty
        } else {
            grid_cell(g, x, y)
        },
{
    lemma_plot_len(g, p, Cell::Empty);
    lemma_plot_cell(g, p, Cell::Empty, x, y);
    lemma_plot_cell(plot_spec(g, p, Cell::Empty), cand, Cell::Falling, x, y);
}

/// A cell the pose covers is one the validator looked at, so on a board
/// where the pose is legal it holds a passable cell.
proof fn lemma_covered_passable(g: Seq<Cell>, cand: Piece, x: int, y: int)
    requires
        spec_is_legal(g, cand),
        piece_covers(cand, x, y),
    ensures
        passable(grid_cell(g, x, y)),
{
    let i = choose|i: int| 0 <= i < 4 && #[trigger] piece_cells(cand)[i] == (x, y);
    assert(passable(grid_cell(g, piece_cells(cand)[i].0, piece_cells(cand)[i].1)));
}

/// Committing a legal move keeps the board invariants: the perimeter
/// stands, the Falling cells follow the piece, and no row fills up.
proof fn lemma_shift_preserves(g: Seq<Cell>, p: Piece, cand: Piece)
    requires
        g.len() == 14 * 26,
        borders_ok(g),
        falling_matches(g, p),
        no_full_rows(g),
        piece_in_bounds(p),
        spec_is_legal(g, cand),
    ensures
        plot_spec(plot_spec(g, p, Cell::Empty), cand, Cell::Falling).len() == 14 * 26,
        borders_ok(plot_spec(plot_spec(g, p, Cell::Empty), cand, Cell::Falling)),
        falling_matches(plot_spec(plot_spec(g, p, Cell::Empty), cand, Cell::Falling), cand),
        no_full_rows(plot_spec(plot_spec(g, p, Cell::Empty), cand, Cell::Falling)),
{
    let g2 = plot_spec(plot_spec(g, p, Cell::Empty), cand, Cell::Falling);
    lemma_plot_len(g, p, Cell::Empty);
    lemma_plot_len(plot_spec(g, p, Cell::Empty), cand, Cell::Falling);
    assert forall|x: int, y: int| in_grid(x, y) implies ((#[trigger] grid_cell(g2, x, y)
        == Cell::Border) <==> border_pos(x, y)) by {
        lemma_double_plot_cell(g, p, cand, x, y);
        if piece_covers(cand, x, y) {
            lemma_covered_passable(g, cand, x, y);
        }
    }
    assert forall|x: int, y: int| in_grid(x, y) implies ((#[trigger] grid_cell(g2, x, y)
        == Cell::Falling) <==> piece_covers(cand, x, y)) by {
        lemma_double_plot_cell(g, p, cand, x, y);
    }
    assert forall|y: int| 0 <= y < 24 implies !(#[trigger] row_full(g2, y)) by {
        if exists|x: int| 2 <= x < 12 && (piece_covers(cand, x, y) || piece_covers(p, x, y)) {
            let x = choose|x: int|
                2 <= x < 12 && (piece_covers(cand, x, y) || piece_covers(p, x, y));
            lemma_double_plot_cell(g, p, cand, x, y);
            assert(grid_cell(g2, x, y) != Cell::Locked);
        } else {
            assert forall|x: int| 2 <= x < 12 implies #[trigger] grid_cell(g2, x, y) == grid_cell(
                g,
                x,
                y,
            ) by {
                lemma_double_plot_cell(g, p, cand, x, y);
            }
            lemma_row_full_congruent(g2, g, y);
        }
    }
}

/// Settling the active piece keeps the perimeter and leaves no Falling
/// cell behind.
proof fn lemma_lock_preserves(g: Seq<Cell>, p: Piece)
    requires
        g.len() == 14 * 26,
        borders_ok(g),
        falling_matches(g, p),
        piece_in_bounds(p),
    ensures
        plot_spec(g, p, Cell::Locked).len() == 14 * 26,
        borders_ok(plot_spec(g, p, Cell::Locked)),
        no_falling(plot_spec(g, p, Cell::Locked)),
{
    let g1 = plot_spec(g, p, Cell::Locked);
    lemma_plot_len(g, p, Cell::Locked);
    assert forall|x: int, y: int| in_grid(x, y) implies ((#[trigger] grid_cell(g1, x, y)
        == Cell::Border) <==> border_pos(x, y)) by {
        lemma_plot_cell(g, p, Cell::Locked, x, y);
    }
    assert forall|x: int, y: int| in_grid(x, y) implies #[trigger] grid_cell(g1, x, y)
        != Cell::Falling by {
        lemma_plot_cell(g, p, Cell::Locked, x, y);
    }
}

/// Stamping a legal spawn pose onto a board without Falling cells keeps
/// the invariants of the Moving phase.
proof fn lemma_spawn_stamp(g: Seq<Cell>, sp: Piece)
    requires
        g.len() == 14 * 26,
        borders_ok(g),
        no_falling(g),
        no_full_rows(g),
        spec_is_legal(g, sp),
    ensures
        plot_spec(g, sp, Cell::Falling).len() == 14 * 26,
        borders_ok(plot_spec(g, sp, Cell::Falling)),
        falling_matches(plot_spec(g, sp, Cell::Falling), sp),
        no_full_rows(plot_spec(g, sp, Cell::Falling)),
{
    let g2 = plot_spec(g, sp, Cell::Falling);
    lemma_plot_len(g, sp, Cell::Falling);
    assert forall|x: int, y: int| in_grid(x, y) implies ((#[trigger] grid_cell(g2, x, y)
        == Cell::Border) <==> border_pos(x, y)) by {
        lemma_plot_cell(g, sp, Cell::Falling, x, y);
        if piece_covers(sp, x, y) {
            lemma_covered_passable(g, sp, x, y);
        }
    }
    assert forall|x: int, y: int| in_grid(x, y) implies ((#[trigger] grid_cell(g2, x, y)
        == Cell::Falling) <==> piece_covers(sp, x, y)) by {
        lemma_plot_cell(g, sp, Cell::Falling, x, y);
    }
    assert forall|y: int| 0 <= y < 24 implies !(#[trigger] row_full(g2, y)) by {
        if exists|x: int| 2 <= x < 12 && piece_covers(sp, x, y) {
            let x = choose|x: int| 2 <= x < 12 && piece_covers(sp, x, y);
            lemma_plot_cell(g, sp, Cell::Falling, x, y);
            assert(grid_cell(g2, x, y) != Cell::Locked);
        } else {
            assert forall|x: int| 2 <= x < 12 implies #[trigger] grid_cell(g2, x, y) == grid_cell(
                g,
                x,
                y,
            ) by {
                lemma_plot_cell(g, sp, Cell::Falling, x, y);
            }
            lemma_row_full_congruent(g2, g, y);
        }
    }
}

/// Collapsing rows keeps the perimeter and introduces no Falling cell.
proof fn lemma_collapse_preserves(g: Seq<Cell>)
    requires
        g.len() == 14 * 26,
        borders_ok(g),
        no_falling(g),
    ensures
        borders_ok(collapse_spec(g)),
        no_falling(collapse_spec(g)),
{
    let res = collapse_spec(g);
    lemma_kept_len(g, 0);
    lemma_kept_elems(g, 0);
    let kept = kept_from(g, 0);
    let cleared = 24 - kept.len();
    assert forall|x: int, y: int| in_grid(x, y) implies (((#[trigger] grid_cell(res, x, y)
        == Cell::Border) <==> border_pos(x, y)) && grid_cell(res, x, y) != Cell::Falling) by {
        lemma_collapse_cell(g, x, y);
        if playable(x, y) && y >= cleared {
            let src = kept[y - cleared];
            assert(0 <= src < 24);
            assert(grid_cell(res, x, y) == grid_cell(g, x, src));
            assert(!border_pos(x, y));
            assert(grid_cell(g, x, src) != Cell::Border);
        }
    }
}

/// Spawn poses are sane: inside the board, with a rotation index below 4.
proof fn lemma_spawn_piece_wf(k: PieceKind)
    ensures
        piece_in_bounds(spec_spawn_piece(k)),
        spec_spawn_piece(k).rotation < 4,
{
    let sp = spec_spawn_piece(k);
    lemma_offsets_bounds(sp.kind, sp.rotation);
    assert forall|i: int| 0 <= i < 4 implies in_grid(
        #[trigger] piece_cells(sp)[i].0,
        piece_cells(sp)[i].1,
    ) by {
        assert(piece_cells(sp)[i].0 == sp.x + crate::pieces::spec_offsets(sp.kind, sp.rotation)[i].0);
        assert(piece_cells(sp)[i].1 == sp.y + crate::pieces::spec_offsets(sp.kind, sp.rotation)[i].1);
    }
}

impl GameCore {
    /// Move the active piece to the candidate pose if the validator lets
    /// it, erasing the old footprint and drawing the new one; otherwise
    /// leave everything as it is.
    fn try_shift(&mut self, cand: Piece) -> (committed: bool)
        requires
            old(self).wf(),
            old(self).state == BoardState::Moving,
            cand.rotation < 4,
        ensures
            final(self).wf(),
            final(self).state == BoardState::Moving,
            committed == spec_is_legal(old(self).grid@, cand),
            shift_rel(old(self).obs(), final(self).obs(), cand),
    {
        if is_legal(&self.grid, &cand) {
            let p = self.piece;
            self.grid.plot(&p, Cell::Empty);
            self.piece = cand;
            self.grid.plot(&cand, Cell::Falling);
            proof {
                lemma_shift_preserves(old(self).grid@, p, cand);
            }
            true
        } else {
            false
        }
    }

    /// Try to move the active piece one cell down; report whether it
    /// moved.
    fn try_move_down(&mut self) -> (moved: bool)
        requires
            old(self).wf(),
            old(self).state == BoardState::Moving,
        ensures
            final(self).wf(),
            final(self).state == BoardState::Moving,
            moved == spec_is_legal(old(self).grid@, down(old(self).piece)),
            moved ==> final(self).obs() == moved_to(old(self).obs(), down(old(self).piece)),
            !moved ==> final(self).obs() == old(self).obs(),
    {
        let cand = Piece { y: self.piece.y + 1, ..self.piece };
        self.try_shift(cand)
    }

    /// Deal the next piece at its spawn pose and advance the preview; if
    /// the pose is blocked the game is over.
    fn spawn_next(&mut self)
        requires
            old(self).grid.wf(),
            borders_ok(old(self).grid@),
            no_falling(old(self).grid@),
            no_full_rows(old(self).grid@),
            old(self).queue.wf(),
            old(self).lines < 10,
        ensures
            final(self).wf(),
            spawn_rel(old(self).obs(), final(self).obs()),
            final(self).state == BoardState::Moving || final(self).state == BoardState::Over,
            final(self).grid.wf(),
    {
        let k = self.queue.next();
        let sp = spawn_piece(k);
        self.piece = sp;
        let pk = self.queue.peek();
        self.preview = set_next_piece(pk);
        proof {
            lemma_spawn_piece_wf(k);
        }
        if is_legal(&self.grid, &sp) {
            self.grid.plot(&sp, Cell::Falling);
            self.state = BoardState::Moving;
            proof {
                lemma_spawn_stamp(old(self).grid@, sp);
            }
        } else {
            self.state = BoardState::Over;
        }
    }

    /// The active piece can descend no further: settle it, then either
    /// freeze the board to clear full rows or spawn the next piece.
    pub fn lock_and_resolve(&mut self) -> (st: BoardState)
        requires
            old(self).wf(),
            old(self).state == BoardState::Moving,
        ensures
            final(self).wf(),
            lock_rel(old(self).obs(), final(self).obs()),
            st == final(self).state,
            st != BoardState::Paused,
    {
        let p = self.piece;
        self.grid.plot(&p, Cell::Locked);
        proof {
            lemma_lock_preserves(old(self).grid@, p);
            lemma_lock_full_rows(old(self).grid@, p);
        }
        if has_full_row_from(&self.grid, p.y) {
            self.state = BoardState::Clearing;
            proof {
                let y = choose|y: int| p.y <= y < 24 && row_full(self.grid@, y);
                lemma_full_count_pos(self.grid@, 0);
            }
            BoardState::Clearing
        } else {
            proof {
                lemma_full_count_pos(self.grid@, 0);
                assert forall|y: int| 0 <= y < 24 implies !(#[trigger] row_full(
                    self.grid@,
                    y,
                )) by {}
            }
            self.spawn_next();
            self.state
        }
    }

    /// Advance the game by one gravity tick.
    pub fn tick_once(&mut self)
        requires
            old(self).wf(),
        ensures
            final(self).wf(),
            tick_rel(old(self).obs(), final(self).obs()),
    {
        match self.state {
            BoardState::Moving => {
                if !self.try_move_down() {
                    self.lock_and_resolve();
                }
            },
            BoardState::Clearing => {
                let ghost a = self.obs();
                let cleared = collapse_rows(&mut self.grid);
                proof {
                    lemma_collapse_no_full(a.grid);
                    lemma_collapse_preserves(a.grid);
                }
                let cl = cleared as u32;
                let delta = score_delta(cl, self.level);
                self.score = if self.score <= u64::MAX - delta {
                    self.score + delta
                } else {
                    u64::MAX
                };
                self.lines = self.lines + cl;
                if self.lines >= 10 {
                    self.lines = self.lines - 10;
                    self.level = if self.level < u32::MAX {
                        self.level + 1
                    } else {
                        self.level
                    };
                }
                self.spawn_next();
            },
            BoardState::Paused => {},
            BoardState::Over => {},
        }
    }
}

/// `n` gravity ticks in a row, each one a `tick_rel` step.
pub open spec fn ticks_rel(a: Snapshot, n: nat, b: Snapshot) -> bool
    decreases n,
{
    if n == 0 {
        b == a
    } else {
        exists|m: Snapshot| #[trigger] tick_rel(a, m) && ticks_rel(m, (n - 1) as nat, b)
    }
}

/// A tick appended at the end of a tick chain extends the chain.
proof fn lemma_ticks_snoc(a: Snapshot, n: nat, m: Snapshot, b: Snapshot)
    requires
        ticks_rel(a, n, m),
        tick_rel(m, b),
    ensures
        ticks_rel(a, (n + 1) as nat, b),
    decreases n,
{
    if n == 0 {
        assert(tick_rel(a, b) && ticks_rel(b, 0, b));
    } else {
        let m1 = choose|m1: Snapshot| #[trigger] tick_rel(a, m1) && ticks_rel(m1, (n - 1) as nat, m);
        lemma_ticks_snoc(m1, (n - 1) as nat, m, b);
        assert(tick_rel(a, m1) && ticks_rel(m1, n, b));
    }
}

impl GameCore {
    /// Advance gravity by the given number of discrete steps. While Paused
    /// or Over, ticks change nothing.
    pub fn on_tick(&mut self, elapsed_ticks: u32)
        requires
            old(self).wf(),
        ensures
            final(self).wf(),
            ticks_rel(old(self).obs(), elapsed_ticks as nat, final(self).obs()),
            old(self).state == BoardState::Paused || old(self).state == BoardState::Over
                ==> final(self).obs() == old(self).obs(),
    {
        let ghost a = self.obs();
        proof {
            assert(ticks_rel(a, 0, a));
        }
        let mut i: u32 = 0;
        while i < elapsed_ticks
            invariant
                self.wf(),
                i <= elapsed_ticks,
                ticks_rel(a, i as nat, self.obs()),
                (a.state == BoardState::Paused || a.state == BoardState::Over) ==> self.obs()
                    == a,
            decreases elapsed_ticks - i,
        {
            let ghost m = self.obs();
            self.tick_once();
            proof {
                lemma_ticks_snoc(a, i as nat, m, self.obs());
            }
            i = i + 1;
        }
    }

    /// Apply one discrete input event.
    pub fn on_input(&mut self, ev: InputEvent)
        requires
            old(self).wf(),
        ensures
            final(self).wf(),
            input_rel(old(self).obs(), ev, final(self).obs()),
    {
        match self.state {
            BoardState::Moving => {
                match ev {
                    InputEvent::Rotate => {
                        let r = self.piece.rotation;
                        let cand = Piece {
                            rotation: if r >= 3 {
                                0
                            } else {
                                r + 1
                            },
                            ..self.piece
                        };
                        self.try_shift(cand);
                    },
                    InputEvent::Left => {
                        if self.piece.x > 0 {
                            let cand = Piece { x: self.piece.x - 1, ..self.piece };
                            self.try_shift(cand);
                        }
                    },
                    InputEvent::Right => {
                        let cand = Piece { x: self.piece.x + 1, ..self.piece };
                        self.try_shift(cand);
                    },
                    InputEvent::SoftDrop => {
                        if !self.try_move_down() {
                            self.lock_and_resolve();
                        }
                    },
                    InputEvent::HardDrop => {
                        let ghost a = self.obs();
                        loop
                            invariant_except_break
                                self.wf(),
                                self.state == BoardState::Moving,
                                a.state == BoardState::Moving,
                                spec_hard_drop(self.grid@, self.piece) == spec_hard_drop(
                                    a.grid,
                                    a.piece,
                                ),
                                self.preview == a.preview,
                                self.queue@ == a.queue,
                                self.score == a.score,
                                self.level == a.level,
                                self.lines == a.lines,
                            ensures
                                self.wf(),
                                self.state == BoardState::Moving,
                                self.obs() == (Snapshot {
                                    grid: spec_hard_drop(a.grid, a.piece).0,
                                    piece: spec_hard_drop(a.grid, a.piece).1,
                                    ..a
                                }),
                            decreases 26 - self.piece.y,
                        {
                            let ghost pre = self.obs();
                            if !self.try_move_down() {
                                proof {
                                    assert(spec_hard_drop(self.grid@, self.piece) == (
                                    self.grid@,
                                    self.piece,
                                    ));
                                }
                                break;
                            }
                            proof {
                                assert(spec_hard_drop(pre.grid, pre.piece) == spec_hard_drop(
                                    self.grid@,
                                    self.piece,
                                ));
                            }
                        }
                        self.lock_and_resolve();
                    },
                    InputEvent::PauseToggle => {
                        self.state = BoardState::Paused;
                    },
                    InputEvent::Quit => {},
                }
            },
            BoardState::Paused => {
                if ev == InputEvent::PauseToggle {
                    self.state = BoardState::Moving;
                }
            },
            BoardState::Clearing => {},
            BoardState::Over => {},
        }
    }

    /// Start a fresh game: a bordered empty board, a shuffled bag, the
    /// first piece stamped at its spawn pose, the preview set, and all
    /// counters at zero.
    pub fn new_game() -> (gc: GameCore)
        ensures
            gc.wf(),
            gc.state == BoardState::Moving,
            gc.score == 0,
            gc.level == 0,
            gc.lines == 0,
            gc.piece == spec_spawn_piece(gc.piece.kind),
            gc.queue@.len() == 6,
            bag_complete(seq![crate::pieces::code_of_kind(gc.piece.kind)] + gc.queue@),
            forall|x: int, y: int|
                in_grid(x, y) ==> #[trigger] grid_cell(gc.grid@, x, y) == (if piece_covers(
                    gc.piece,
                    x,
                    y,
                ) {
                    Cell::Falling
                } else {
                    init_cell(x, y)
                }),
    {
        let mut queue = TetQueue::new();
        let ghost q7 = queue@;
        let k = queue.next();
        proof {
            assert(q7 =~= seq![q7[0]] + q7.drop_first());
            crate::pieces::lemma_code_roundtrip(q7[0]);
        }
        let sp = spawn_piece(k);
        let pk = queue.peek();
        let preview = set_next_piece(pk);
        let grid = Grid::new();
        let mut gc = GameCore {
            grid,
            piece: sp,
            preview,
            queue,
            state: BoardState::Moving,
            score: 0,
            level: 0,
            lines: 0,
        };
        let ghost g0 = gc.grid@;
        proof {
            lemma_spawn_piece_wf(k);
            lemma_offsets_bounds(sp.kind, sp.rotation);
            assert forall|y: int| 0 <= y < 24 implies !(#[trigger] row_full(g0, y)) by {
                assert(grid_cell(g0, 2, y) == init_cell(2, y));
                assert(grid_cell(g0, 2, y) != Cell::Locked);
            }
            assert forall|i: int| 0 <= i < 4 implies passable(
                #[trigger] grid_cell(g0, piece_cells(sp)[i].0, piece_cells(sp)[i].1),
            ) by {
                let cx = piece_cells(sp)[i].0;
                let cy = piece_cells(sp)[i].1;
                assert(cx == sp.x + crate::pieces::spec_offsets(sp.kind, sp.rotation)[i].0);
                assert(cy == sp.y + crate::pieces::spec_offsets(sp.kind, sp.rotation)[i].1);
                assert(6 <= cx <= 9 && 0 <= cy <= 5);
                assert(!border_pos(cx, cy));
                assert(grid_cell(g0, cx, cy) == init_cell(cx, cy));
            }
            assert(spec_is_legal(g0, sp));
        }
        gc.grid.plot(&sp, Cell::Falling);
        proof {
            lemma_spawn_stamp(g0, sp);
            assert forall|x: int, y: int| in_grid(x, y) implies #[trigger] grid_cell(gc.grid@, x, y)
                == (if piece_covers(gc.piece, x, y) {
                Cell::Falling
            } else {
                init_cell(x, y)
            }) by {
                lemma_plot_cell(g0, sp, Cell::Falling, x, y);
            }
        }
        gc
    }

    /// The current phase.
    pub fn state(&self) -> (s: BoardState)
        ensures
            s == self.state,
    {
        self.state
    }

    /// The cumulative score.
    pub fn score(&self) -> (s: u64)
        ensures
            s == self.score,
    {
        self.score
    }

    /// The current level.
    pub fn level(&self) -> (l: u32)
        ensures
            l == self.level,
    {
        self.level
    }

    /// Rows cleared since the last level-up.
    pub fn lines(&self) -> (l: u32)
        ensures
            l == self.lines,
    {
        self.lines
    }

    /// The active piece's pose.
    pub fn active_piece(&self) -> (p: Piece)
        ensures
            p == self.piece,
    {
        self.piece
    }

    /// The preview piece's pose in the next-piece panel.
    pub fn preview_piece(&self) -> (p: Piece)
        ensures
            p == self.preview,
    {
        self.preview
    }

    /// The cell at the given board coordinate, for rendering.
    pub fn cell_at(&self, x: usize, y: usize) -> (c: Cell)
        requires
            self.wf(),
            x < 14,
            y < 26,
        ensures
            c == grid_cell(self.grid@, x as int, y as int),
    {
        self.grid.cell_at(x, y)
    }

    /// Settle material onto one empty playable cell, for setting up a
    /// board. The cell must not be under the active piece, and the row
    /// must keep at least one cell free of settled material so that no
    /// row fills outside a lock step.
    pub fn place_locked(&mut self, x: usize, y: usize)
        requires
            old(self).wf(),
            old(self).state == BoardState::Moving,
            playable(x as int, y as int),
            grid_cell(old(self).grid@, x as int, y as int) == Cell::Empty,
            exists|x2: int|
                2 <= x2 < 12 && x2 != x as int && grid_cell(old(self).grid@, x2, y as int)
                    != Cell::Locked,
        ensures
            final(self).wf(),
            final(self).obs() == (Snapshot {
                grid: old(self).grid@.update(x as int * 26 + y as int, Cell::Locked),
                ..old(self).obs()
            }),
    {
        self.grid.set_cell(x, y, Cell::Locked);
        proof {
            let g0 = old(self).grid@;
            let g1 = self.grid@;
            assert forall|xx: int, yy: int| in_grid(xx, yy) implies #[trigger] grid_cell(
                g1,
                xx,
                yy,
            ) == (if xx == x as int && yy == y as int {
                Cell::Locked
            } else {
                grid_cell(g0, xx, yy)
            }) by {
                lemma_update_frame(g0, x as int, y as int, Cell::Locked, xx, yy);
            }
            assert(!piece_covers(self.piece, x as int, y as int));
            assert forall|xx: int, yy: int| in_grid(xx, yy) implies ((#[trigger] grid_cell(
                g1,
                xx,
                yy,
            ) == Cell::Falling) <==> piece_covers(self.piece, xx, yy)) by {}
            assert forall|yy: int| 0 <= yy < 24 implies !(#[trigger] row_full(g1, yy)) by {
                if yy == y as int {
                    let x2 = choose|x2: int|
                        2 <= x2 < 12 && x2 != x as int && grid_cell(g0, x2, y as int)
                            != Cell::Locked;
                    assert(grid_cell(g1, x2, yy) != Cell::Locked);
                } else {
                    assert forall|x2: int| 2 <= x2 < 12 implies #[trigger] grid_cell(g1, x2, yy)
                        == grid_cell(g0, x2, yy) by {}
                    lemma_row_full_congruent(g1, g0, yy);
                }
            }
        }
    }
}

/// While Paused, every input but the pause toggle changes nothing, and
/// the toggle returns to Moving with everything else exactly as it was.
pub proof fn lemma_paused_input_inert(a: Snapshot, ev: InputEvent, b: Snapshot)
    requires
        a.state == BoardState::Paused,
        input_rel(a, ev, b),
    ensures
        ev != InputEvent::PauseToggle ==> b == a,
        ev == InputEvent::PauseToggle ==> b == (Snapshot { state: BoardState::Moving, ..a }),
{
}

/// Whether some cell of the spawn pose of the given kind holds settled
/// material, so that a freshly dealt piece of that kind cannot fit.
pub open spec fn spawn_pose_blocked(g: Seq<Cell>, k: PieceKind) -> bool {
    exists|i: int|
        0 <= i < 4 && #[trigger] grid_cell(
            g,
            piece_cells(spec_spawn_piece(k))[i].0,
            piece_cells(spec_spawn_piece(k))[i].1,
        ) == Cell::Locked
}

/// A blocked spawn ends the game: when any cell of the spawn pose of the
/// queue's head kind holds settled material, the spawn step leaves the
/// board untouched and yields Over.
pub proof fn lemma_blocked_spawn_over(a: Snapshot, b: Snapshot)
    requires
        spawn_rel(a, b),
        spawn_pose_blocked(a.grid, kind_of_code(a.queue[0])),
    ensures
        b.state == BoardState::Over,
        b.grid == a.grid,
{
    let sp = spec_spawn_piece(kind_of_code(a.queue[0]));
    let i = choose|i: int|
        0 <= i < 4 && #[trigger] grid_cell(a.grid, piece_cells(sp)[i].0, piece_cells(sp)[i].1)
            == Cell::Locked;
    if spec_is_legal(a.grid, sp) {
        assert(passable(grid_cell(a.grid, piece_cells(sp)[i].0, piece_cells(sp)[i].1)));
    }
}

/// The same, at a lock that completes no row: settling a piece onto a
/// board where the spawn cells of the next kind hold settled material
/// yields Over.
pub proof fn lemma_blocked_spawn_over_at_lock(a: Snapshot, b: Snapshot)
    requires
        lock_rel(a, b),
        full_count(plot_spec(a.grid, a.piece, Cell::Locked)) == 0,
        spawn_pose_blocked(plot_spec(a.grid, a.piece, Cell::Locked), kind_of_code(a.queue[0])),
    ensures
        b.state == BoardState::Over,
{
    lemma_blocked_spawn_over(
        Snapshot { grid: plot_spec(a.grid, a.piece, Cell::Locked), ..a },
        b,
    );
}

/// The single-row clearing tick: with exactly one full row, the resolving
/// tick removes that row, shifts the settled material of every row above
/// it down by one, leaves the rows below in place, grows the score by the
/// one-row formula at the level in effect, adds one to lines at the same
/// level, and spawns the next piece.
pub proof fn lemma_single_row_clear(a: Snapshot, b: Snapshot, yf: int)
    requires
        a.state == BoardState::Clearing,
        a.grid.len() == 14 * 26,
        full_count(a.grid) == 1,
        0 <= yf < 24,
        row_full(a.grid, yf),
        a.lines < 9,
        tick_rel(a, b),
    ensures
        b.lines == a.lines + 1,
        b.level == a.level,
        b.score == (if a.score + spec_score_table(1) * (a.level + 1) <= u64::MAX {
            (a.score + spec_score_table(1) * (a.level + 1)) as u64
        } else {
            u64::MAX
        }),
        b.piece == spec_spawn_piece(kind_of_code(a.queue[0])),
        b.state == BoardState::Moving || b.state == BoardState::Over,
        forall|x: int, y: int|
            2 <= x < 12 && 0 <= y < 24 ==> ((#[trigger] grid_cell(b.grid, x, y) == Cell::Locked)
                <==> (if y == 0 {
                false
            } else if y <= yf {
                grid_cell(a.grid, x, y - 1) == Cell::Locked
            } else {
                grid_cell(a.grid, x, y) == Cell::Locked
            })),
{
    let g1 = collapse_spec(a.grid);
    let sp = spec_spawn_piece(kind_of_code(a.queue[0]));
    assert forall|y2: int| 0 <= y2 < 24 && y2 != yf implies !row_full(a.grid, y2) by {
        if row_full(a.grid, y2) {
            lemma_single_full_row_unique(a.grid, yf, y2);
        }
    }
    lemma_kept_single(a.grid, yf, 0);
    lemma_kept_len(a.grid, 0);
    assert forall|x: int, y: int| 2 <= x < 12 && 0 <= y < 24 implies ((#[trigger] grid_cell(
        b.grid,
        x,
        y,
    ) == Cell::Locked) <==> (if y == 0 {
        false
    } else if y <= yf {
        grid_cell(a.grid, x, y - 1) == Cell::Locked
    } else {
        grid_cell(a.grid, x, y) == Cell::Locked
    })) by {
        lemma_collapse_cell(a.grid, x, y);
        if y >= 1 {
            assert(kept_from(a.grid, 0)[y - 1] == (if y - 1 < yf {
                y - 1
            } else {
                y
            }));
        }
        if spec_is_legal(g1, sp) {
            lemma_plot_cell(g1, sp, Cell::Falling, x, y);
            if piece_covers(sp, x, y) {
                lemma_covered_passable(g1, sp, x, y);
            }
        }
    }
}

/// While Paused, any number of gravity ticks changes nothing.
pub proof fn lemma_paused_ticks_inert(a: Snapshot, n: nat, b: Snapshot)
    requires
        a.state == BoardState::Paused,
        ticks_rel(a, n, b),
    ensures
        b == a,
    decreases n,
{
    if n > 0 {
        let m = choose|m: Snapshot| #[trigger] tick_rel(a, m) && ticks_rel(m, (n - 1) as nat, b);
        lemma_paused_ticks_inert(m, (n - 1) as nat, b);
    }
}

} // verus!
