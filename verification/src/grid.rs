use vstd::prelude::*;

use crate::pieces::{lemma_offsets_bounds, occupied_offsets, piece_cells, piece_covers, Piece};

verus! {

/// Width of the allocated board, including the margins around the visible
/// playfield.
pub const BOARD_WIDTH: usize = 14;

/// Height of the allocated board, including the margins.
pub const BOARD_HEIGHT: usize = 26;

/// One board square.
#[derive(Clone, Copy, Debug, PartialEq, Eq, Structural)]
pub enum Cell {
    /// Unoccupied.
    Empty,
    /// Immutable perimeter marker around the playfield.
    Border,
    /// Settled piece material.
    Locked,
    /// A cell of the currently active piece.
    Falling,
}

/// Whether (x, y) lies inside the allocated board.
pub open spec fn in_grid(x: int, y: int) -> bool {
    0 <= x < 14 && 0 <= y < 26
}

/// Whether (x, y) is one of the playable cells: ten columns wide,
/// twenty-four rows tall.
pub open spec fn playable(x: int, y: int) -> bool {
    2 <= x < 12 && 0 <= y < 24
}

/// Whether (x, y) carries a perimeter marker: the two border columns and
/// the floor row under the playfield.
pub open spec fn border_pos(x: int, y: int) -> bool {
    ((x == 1 || x == 12) && 0 <= y <= 24) || (y == 24 && 1 <= x <= 12)
}

/// The cell stored at (x, y); the board is kept as one flat column-major
/// sequence.
pub open spec fn grid_cell(g: Seq<Cell>, x: int, y: int) -> Cell {
    g[x * 26 + y]
}

/// Cell contents the board starts with.
pub open spec fn init_cell(x: int, y: int) -> Cell {
    if border_pos(x, y) {
        Cell::Border
    } else {
        Cell::Empty
    }
}

/// Distinct in-bounds coordinates have distinct flat indices.
pub proof fn lemma_flat_injective(x1: int, y1: int, x2: int, y2: int)
    requires
        in_grid(x1, y1),
        in_grid(x2, y2),
        x1 * 26 + y1 == x2 * 26 + y2,
    ensures
        x1 == x2 && y1 == y2,
{
}

/// Recover the coordinates from a flat index.
pub proof fn lemma_flat_decompose(x: int, y: int)
    requires
        0 <= x,
        0 <= y < 26,
    ensures
        (x * 26 + y) / 26 == x,
        (x * 26 + y) % 26 == y,
{
    assert((x * 26 + y) / 26 == x && (x * 26 + y) % 26 == y) by (nonlinear_arith)
        requires
            0 <= x,
            0 <= y < 26,
    ;
}

/// The playfield: a fixed-size rectangular array of cells.
pub struct Grid {
    cells: Vec<Cell>,
}

impl View for Grid {
    type V = Seq<Cell>;

    closed spec fn view(&self) -> Seq<Cell> {
        self.cells@
    }
}

impl Grid {
    /// The board always holds exactly its fixed number of cells.
    pub open spec fn wf(&self) -> bool {
        self@.len() == 14 * 26
    }

    /// A fresh board: perimeter markers in place, everything else empty.
    pub fn new() -> (g: Grid)
        ensures
            g.wf(),
            forall|x: int, y: int|
                in_grid(x, y) ==> #[trigger] grid_cell(g@, x, y) == init_cell(x, y),
    {
        let mut cells: Vec<Cell> = Vec::new();
        let mut x: usize = 0;
        while x < BOARD_WIDTH
            invariant
                x <= 14,
                cells@.len() == x * 26,
                forall|k: int| 0 <= k < cells@.len() ==> #[trigger] cells@[k] == init_cell(
                    k / 26,
                    k % 26,
                ),
            decreases 14 - x,
        {
            let mut y: usize = 0;
            while y < BOARD_HEIGHT
                invariant
                    x < 14,
                    y <= 26,
                    cells@.len() == x * 26 + y,
                    forall|k: int| 0 <= k < cells@.len() ==> #[trigger] cells@[k] == init_cell(
                        k / 26,
                        k % 26,
                    ),
                decreases 26 - y,
            {
                let c = if (x == 1 || x == 12) && y <= 24 {
                    Cell::Border
                } else if y == 24 && 1 <= x && x <= 12 {
                    Cell::Border
                } else {
                    Cell::Empty
                };
                cells.push(c);
                proof {
                    lemma_flat_decompose(x as int, y as int);
                    assert(cells@[x as int * 26 + y as int] == c);
                }
                y = y + 1;
            }
            x = x + 1;
        }
        let g = Grid { cells };
        proof {
            assert forall|x2: int, y2: int| in_grid(x2, y2) implies #[trigger] grid_cell(
                g@,
                x2,
                y2,
            ) == init_cell(x2, y2) by {
                lemma_flat_decompose(x2, y2);
            }
        }
        g
    }

    /// The cell at the given coordinate.
    pub fn cell_at(&self, x: usize, y: usize) -> (c: Cell)
        requires
            self.wf(),
            x < 14,
            y < 26,
        ensures
            c == grid_cell(self@, x as int, y as int),
    {
        self.cells[x * 26 + y]
    }

    /// Overwrite the cell at the given coordinate.
    pub fn set_cell(&mut self, x: usize, y: usize, c: Cell)
        requires
            old(self).wf(),
            x < 14,
            y < 26,
        ensures
            final(self).wf(),
            final(self)@ == old(self)@.update(x as int * 26 + y, c),
    {
        self.cells[x * 26 + y] = c;
    }
}

/// Whether the pose lies fully inside the board. The anchor conjuncts are
/// implied by the cell conjuncts, since every table offset is non-negative;
/// they are stated directly so that bounds on the anchor are immediate.
pub open spec fn piece_in_bounds(p: Piece) -> bool {
    &&& p.x < 14
    &&& p.y < 26
    &&& forall|i: int|
        0 <= i < 4 ==> in_grid(#[trigger] piece_cells(p)[i].0, piece_cells(p)[i].1)
}

/// Whether a cell lets the active piece pass: empty cells do, and so do the
/// cells of the piece's own current footprint, which are the only Falling
/// cells the board ever holds.
pub open spec fn passable(c: Cell) -> bool {
    c == Cell::Empty || c == Cell::Falling
}

/// What the validator decides: every cell of the pose is on the board,
/// and none of them is blocked by a border or by settled material.
pub open spec fn spec_is_legal(g: Seq<Cell>, p: Piece) -> bool {
    &&& piece_in_bounds(p)
    &&& forall|i: int|
        0 <= i < 4 ==> passable(
            #[trigger] grid_cell(g, piece_cells(p)[i].0, piece_cells(p)[i].1),
        )
}

/// Test whether the requested pose fits on the given board. Never mutates
/// the board.
pub fn is_legal(grid: &Grid, piece: &Piece) -> (r: bool)
    requires
        grid.wf(),
    ensures
        r == spec_is_legal(grid@, *piece),
{
    if piece.x >= BOARD_WIDTH || piece.y >= BOARD_HEIGHT {
        return false;
    }
    let offs = occupied_offsets(piece.kind, piece.rotation);
    let mut i: usize = 0;
    while i < 4
        invariant
            grid.wf(),
            i <= 4,
            piece.x < 14,
            piece.y < 26,
            offs@.len() == 4,
            forall|j: int|
                0 <= j < 4 ==> #[trigger] offs@[j].0 as int
                    == crate::pieces::spec_offsets(piece.kind, piece.rotation)[j].0
                    && offs@[j].1 as int
                    == crate::pieces::spec_offsets(piece.kind, piece.rotation)[j].1,
            forall|j: int| 0 <= j < 4 ==> #[trigger] offs@[j].0 <= 3 && offs@[j].1 <= 3,
            forall|j: int|
                0 <= j < i ==> in_grid(#[trigger] piece_cells(*piece)[j].0, piece_cells(*piece)[j].1)
                    && passable(grid_cell(grid@, piece_cells(*piece)[j].0, piece_cells(*piece)[j].1)),
        decreases 4 - i,
    {
        let x = piece.x + offs[i].0;
        let y = piece.y + offs[i].1;
        proof {
            assert(piece_cells(*piece)[i as int] == (x as int, y as int));
        }
        if x >= BOARD_WIDTH || y >= BOARD_HEIGHT {
            proof {
                assert(!in_grid(piece_cells(*piece)[i as int].0, piece_cells(*piece)[i as int].1));
            }
            return false;
        }
        let c = grid.cell_at(x, y);
        if c == Cell::Border || c == Cell::Locked {
            proof {
                assert(!passable(
                    grid_cell(grid@, piece_cells(*piece)[i as int].0, piece_cells(*piece)[i as int].1),
                ));
            }
            return false;
        }
        i = i + 1;
    }
    true
}

/// The four board cells a pose occupies, as coordinates.
pub fn piece_footprint(p: &Piece) -> (cells: Vec<(usize, usize)>)
    requires
        piece_in_bounds(*p),
    ensures
        cells@.len() == 4,
        forall|i: int|
            0 <= i < 4 ==> #[trigger] cells@[i].0 as int == piece_cells(*p)[i].0
                && cells@[i].1 as int == piece_cells(*p)[i].1,
{
    let offs = occupied_offsets(p.kind, p.rotation);
    let mut cells: Vec<(usize, usize)> = Vec::new();
    cells.push((p.x + offs[0].0, p.y + offs[0].1));
    cells.push((p.x + offs[1].0, p.y + offs[1].1));
    cells.push((p.x + offs[2].0, p.y + offs[2].1));
    cells.push((p.x + offs[3].0, p.y + offs[3].1));
    cells
}

/// The board after stamping cell value `c` over the pose's four cells.
pub open spec fn plot_spec(g: Seq<Cell>, p: Piece, c: Cell) -> Seq<Cell> {
    let s = piece_cells(p);
    g.update(s[0].0 * 26 + s[0].1, c).update(s[1].0 * 26 + s[1].1, c).update(
        s[2].0 * 26 + s[2].1,
        c,
    ).update(s[3].0 * 26 + s[3].1, c)
}

/// Pointwise reading of `plot_spec`: the stamped cells read `c`, everything
/// else is unchanged.
pub proof fn lemma_plot_cell(g: Seq<Cell>, p: Piece, c: Cell, x: int, y: int)
    requires
        g.len() == 14 * 26,
        piece_in_bounds(p),
        in_grid(x, y),
    ensures
        grid_cell(plot_spec(g, p, c), x, y) == if piece_covers(p, x, y) {
            c
        } else {
            grid_cell(g, x, y)
        },
{
    let s = piece_cells(p);
    if piece_covers(p, x, y) {
        let i = choose|i: int| 0 <= i < 4 && #[trigger] piece_cells(p)[i] == (x, y);
        assert(s[i].0 * 26 + s[i].1 == x * 26 + y);
    } else {
        assert forall|i: int| 0 <= i < 4 implies #[trigger] (s[i].0 * 26 + s[i].1) != x * 26
            + y by {
            if s[i].0 * 26 + s[i].1 == x * 26 + y {
                lemma_flat_injective(s[i].0, s[i].1, x, y);
                assert(s[i] == (x, y));
            }
        }
    }
}

/// `plot_spec` keeps the board size.
pub proof fn lemma_plot_len(g: Seq<Cell>, p: Piece, c: Cell)
    requires
        g.len() == 14 * 26,
        piece_in_bounds(p),
    ensures
        plot_spec(g, p, c).len() == 14 * 26,
{
}

impl Grid {
    /// Stamp the pose's four cells with the given cell value.
    pub fn plot(&mut self, piece: &Piece, c: Cell)
        requires
            old(self).wf(),
            piece_in_bounds(*piece),
        ensures
            final(self).wf(),
            final(self)@ == plot_spec(old(self)@, *piece, c),
    {
        proof {
            lemma_offsets_bounds(piece.kind, piece.rotation);
        }
        let offs = occupied_offsets(piece.kind, piece.rotation);
        let ghost s = piece_cells(*piece);
        proof {
            assert(in_grid(s[0].0, s[0].1));
            assert(in_grid(s[1].0, s[1].1));
            assert(in_grid(s[2].0, s[2].1));
            assert(in_grid(s[3].0, s[3].1));
            assert(s[0] == (piece.x + offs@[0].0 as int, piece.y + offs@[0].1 as int));
            assert(s[1] == (piece.x + offs@[1].0 as int, piece.y + offs@[1].1 as int));
            assert(s[2] == (piece.x + offs@[2].0 as int, piece.y + offs@[2].1 as int));
            assert(s[3] == (piece.x + offs@[3].0 as int, piece.y + offs@[3].1 as int));
        }
        self.set_cell(piece.x + offs[0].0, piece.y + offs[0].1, c);
        self.set_cell(piece.x + offs[1].0, piece.y + offs[1].1, c);
        self.set_cell(piece.x + offs[2].0, piece.y + offs[2].1, c);
        self.set_cell(piece.x + offs[3].0, piece.y + offs[3].1, c);
        proof {
            assert(self@ =~= plot_spec(old(self)@, *piece, c));
        }
    }
}

} // verus!
