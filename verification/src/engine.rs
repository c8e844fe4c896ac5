use vstd::prelude::*;

use crate::grid::{
    grid_cell, in_grid, lemma_flat_decompose, lemma_flat_injective, lemma_plot_cell, piece_in_bounds,
    playable, plot_spec, Cell, Grid,
};
use crate::pieces::{lemma_offsets_bounds, piece_cells, piece_covers, Piece};

verus! {

/// Base points for clearing 1, 2, 3 or 4 rows at once.
pub open spec fn spec_score_table(cleared: u32) -> u32 {
    if cleared == 1 {
        40
    } else if cleared == 2 {
        100
    } else if cleared == 3 {
        300
    } else {
        1200
    }
}

/// Points for clearing `cleared` full rows (1 to 4) at the given level:
/// the original NES table, scaled by level + 1.
pub fn get_score(cleared: u32, level: u32) -> (score: u32)
    requires
        0 < cleared < 5,
        spec_score_table(cleared) * (level + 1) <= u32::MAX,
    ensures
        score == spec_score_table(cleared) * (level + 1),
{
    let base: u32 = if cleared == 1 {
        40
    } else if cleared == 2 {
        100
    } else if cleared == 3 {
        300
    } else {
        1200
    };
    assert(base == spec_score_table(cleared));
    base * (level + 1)
}

/// The same score formula in a width that never overflows, used by the
/// state machine at any level.
pub fn score_delta(cleared: u32, level: u32) -> (delta: u64)
    requires
        0 < cleared < 5,
    ensures
        delta == spec_score_table(cleared) * (level + 1),
{
    let base: u64 = if cleared == 1 {
        40
    } else if cleared == 2 {
        100
    } else if cleared == 3 {
        300
    } else {
        1200
    };
    assert(base == spec_score_table(cleared));
    base * (level as u64 + 1)
}

/// A full row: every playable cell of the row holds settled material.
pub open spec fn row_full(g: Seq<Cell>, y: int) -> bool {
    forall|x: int| 2 <= x < 12 ==> #[trigger] grid_cell(g, x, y) == Cell::Locked
}

/// Number of full rows among rows y up to the bottom of the playfield.
pub open spec fn full_count_from(g: Seq<Cell>, y: int) -> int
    decreases 24 - y,
{
    if y >= 24 {
        0
    } else {
        (if row_full(g, y) {
            1int
        } else {
            0int
        }) + full_count_from(g, y + 1)
    }
}

/// Number of full rows on the whole board.
pub open spec fn full_count(g: Seq<Cell>) -> int {
    full_count_from(g, 0)
}

/// The indices of the rows from y downward that survive a collapse, in
/// top-to-bottom order.
pub open spec fn kept_from(g: Seq<Cell>, y: int) -> Seq<int>
    decreases 24 - y,
{
    if y >= 24 {
        Seq::empty()
    } else if row_full(g, y) {
        kept_from(g, y + 1)
    } else {
        seq![y] + kept_from(g, y + 1)
    }
}

/// Counting and keeping partition the rows.
pub proof fn lemma_kept_len(g: Seq<Cell>, y: int)
    requires
        0 <= y <= 24,
    ensures
        0 <= full_count_from(g, y) <= 24 - y,
        kept_from(g, y).len() + full_count_from(g, y) == 24 - y,
    decreases 24 - y,
{
    if y < 24 {
        lemma_kept_len(g, y + 1);
    }
}

/// Every kept row index is a playable row at or below y, and is not full.
pub proof fn lemma_kept_elems(g: Seq<Cell>, y: int)
    requires
        0 <= y <= 24,
    ensures
        forall|j: int|
            0 <= j < kept_from(g, y).len() ==> y <= #[trigger] kept_from(g, y)[j] < 24
                && !row_full(g, kept_from(g, y)[j]),
    decreases 24 - y,
{
    if y < 24 {
        lemma_kept_elems(g, y + 1);
        assert forall|j: int| 0 <= j < kept_from(g, y).len() implies y <= #[trigger] kept_from(
            g,
            y,
        )[j] < 24 && !row_full(g, kept_from(g, y)[j]) by {
            if row_full(g, y) {
                assert(kept_from(g, y)[j] == kept_from(g, y + 1)[j]);
            } else if j == 0 {
                assert(kept_from(g, y)[0] == y);
            } else {
                assert(kept_from(g, y)[j] == kept_from(g, y + 1)[j - 1]);
            }
        }
    }
}

/// Rows with equal playable cells are full together.
pub proof fn lemma_row_full_congruent(g1: Seq<Cell>, g2: Seq<Cell>, y: int)
    requires
        forall|x: int| 2 <= x < 12 ==> #[trigger] grid_cell(g1, x, y) == grid_cell(g2, x, y),
    ensures
        row_full(g1, y) == row_full(g2, y),
{
    if row_full(g1, y) {
        assert forall|x: int| 2 <= x < 12 implies #[trigger] grid_cell(g2, x, y)
            == Cell::Locked by {
            assert(grid_cell(g1, x, y) == Cell::Locked);
        }
    }
    if row_full(g2, y) {
        assert forall|x: int| 2 <= x < 12 implies #[trigger] grid_cell(g1, x, y)
            == Cell::Locked by {
            assert(grid_cell(g2, x, y) == Cell::Locked);
        }
    }
}

/// The board after the row collapse: full rows vanish, the surviving rows
/// slide to the bottom keeping their order, and as many empty rows as were
/// cleared appear at the top. Cells outside the playable region keep their
/// contents.
pub open spec fn collapse_spec(g: Seq<Cell>) -> Seq<Cell> {
    Seq::new(
        g.len(),
        |k: int|
            {
                let x = k / 26;
                let y = k % 26;
                if playable(x, y) {
                    let kept = kept_from(g, 0);
                    let cleared = 24 - kept.len();
                    if y < cleared {
                        Cell::Empty
                    } else {
                        grid_cell(g, x, kept[y - cleared])
                    }
                } else {
                    g[k]
                }
            },
    )
}

/// Pointwise reading of `collapse_spec` in board coordinates.
pub proof fn lemma_collapse_cell(g: Seq<Cell>, x: int, y: int)
    requires
        g.len() == 14 * 26,
        in_grid(x, y),
    ensures
        grid_cell(collapse_spec(g), x, y) == if playable(x, y) {
            if y < 24 - kept_from(g, 0).len() {
                Cell::Empty
            } else {
                grid_cell(g, x, kept_from(g, 0)[y - (24 - kept_from(g, 0).len())])
            }
        } else {
            grid_cell(g, x, y)
        },
{
    lemma_flat_decompose(x, y);
}

/// A cell update at one board coordinate, read back at another.
pub proof fn lemma_update_frame(g: Seq<Cell>, x: int, y: int, c: Cell, x2: int, y2: int)
    requires
        g.len() == 14 * 26,
        in_grid(x, y),
        in_grid(x2, y2),
    ensures
        grid_cell(g.update(x * 26 + y, c), x2, y2) == if x2 == x && y2 == y {
            c
        } else {
            grid_cell(g, x2, y2)
        },
{
    if x2 == x && y2 == y {
    } else {
        if x2 * 26 + y2 == x * 26 + y {
            lemma_flat_injective(x2, y2, x, y);
        }
    }
}

/// Whether the given playable row is full.
pub fn row_is_full(g: &Grid, y: usize) -> (b: bool)
    requires
        g.wf(),
        y < 24,
    ensures
        b == row_full(g@, y as int),
{
    let mut x: usize = 2;
    while x < 12
        invariant
            g.wf(),
            2 <= x <= 12,
            y < 24,
            forall|x2: int| 2 <= x2 < x ==> #[trigger] grid_cell(g@, x2, y as int) == Cell::Locked,
        decreases 12 - x,
    {
        if !(g.cell_at(x, y) == Cell::Locked) {
            return false;
        }
        x = x + 1;
    }
    true
}

/// Whether any row from y0 down to the bottom of the playfield is full.
pub fn has_full_row_from(g: &Grid, y0: usize) -> (b: bool)
    requires
        g.wf(),
    ensures
        b == exists|y: int| y0 <= y < 24 && row_full(g@, y),
{
    let mut y: usize = y0;
    while y < 24
        invariant
            g.wf(),
            y0 <= y,
            forall|y2: int| y0 <= y2 < y ==> !row_full(g@, y2),
        decreases 24 - y,
    {
        if row_is_full(g, y) {
            return true;
        }
        y = y + 1;
    }
    false
}

/// A full row exists below y if and only if the full-row count from y on
/// is positive.
pub proof fn lemma_full_count_pos(g: Seq<Cell>, y: int)
    requires
        0 <= y <= 24,
    ensures
        full_count_from(g, y) > 0 <==> exists|y2: int| y <= y2 < 24 && row_full(g, y2),
    decreases 24 - y,
{
    if y < 24 {
        lemma_full_count_pos(g, y + 1);
        lemma_kept_len(g, y + 1);
        if row_full(g, y) {
            assert(y <= y < 24 && row_full(g, y));
        }
    }
}

/// Remove the full rows: walk the playable rows bottom to top with a write
/// cursor, dropping full rows and copying the others downward, then empty
/// whatever is left above. Returns the number of rows removed.
pub fn collapse_rows(g: &mut Grid) -> (cleared: usize)
    requires
        old(g).wf(),
    ensures
        final(g).wf(),
        final(g)@ == collapse_spec(old(g)@),
        cleared == full_count(old(g)@),
{
    let ghost g0 = g@;
    let mut dest: usize = 24;
    let mut y: usize = 24;
    proof {
        lemma_kept_len(g0, 24);
    }
    while y > 0
        invariant
            g.wf(),
            y <= 24,
            dest <= 24,
            g0.len() == 14 * 26,
            dest == y + full_count_from(g0, y as int),
            forall|x2: int, y2: int|
                2 <= x2 < 12 && 0 <= y2 < y ==> #[trigger] grid_cell(g@, x2, y2) == grid_cell(
                    g0,
                    x2,
                    y2,
                ),
            forall|k: int|
                0 <= k < g0.len() && !playable(k / 26, k % 26) ==> #[trigger] g@[k] == g0[k],
            forall|x2: int, d: int|
                2 <= x2 < 12 && dest <= d < 24 ==> #[trigger] grid_cell(g@, x2, d) == grid_cell(
                    g0,
                    x2,
                    kept_from(g0, y as int)[d - dest],
                ),
        decreases y,
    {
        proof {
            lemma_kept_len(g0, y as int);
            lemma_kept_len(g0, y - 1);
        }
        y = y - 1;
        let full = row_is_full(g, y);
        proof {
            assert forall|x2: int| 2 <= x2 < 12 implies #[trigger] grid_cell(g@, x2, y as int)
                == grid_cell(g0, x2, y as int) by {}
            lemma_row_full_congruent(g@, g0, y as int);
        }
        if !full {
            let ghost gpre = g@;
            let mut x: usize = 2;
            while x < 12
                invariant
                    g.wf(),
                    2 <= x <= 12,
                    y < 24,
                    1 <= dest <= 24,
                    y as int <= dest - 1,
                    g0.len() == 14 * 26,
                    forall|x2: int, y2: int|
                        2 <= x2 < 12 && 0 <= y2 <= y ==> #[trigger] grid_cell(g@, x2, y2)
                            == grid_cell(g0, x2, y2),
                    forall|k: int|
                        0 <= k < g0.len() && !playable(k / 26, k % 26) ==> #[trigger] g@[k]
                            == g0[k],
                    forall|x2: int, d: int|
                        2 <= x2 < 12 && dest <= d < 24 ==> #[trigger] grid_cell(g@, x2, d)
                            == grid_cell(gpre, x2, d),
                    forall|x2: int|
                        2 <= x2 < x ==> #[trigger] grid_cell(g@, x2, dest - 1) == grid_cell(
                            g0,
                            x2,
                            y as int,
                        ),
                decreases 12 - x,
            {
                let c = g.cell_at(x, y);
                let ghost gmid = g@;
                g.set_cell(x, dest - 1, c);
                proof {
                    assert forall|x2: int, y2: int| in_grid(x2, y2) implies #[trigger] grid_cell(
                        g@,
                        x2,
                        y2,
                    ) == if x2 == x as int && y2 == dest - 1 {
                        c
                    } else {
                        grid_cell(gmid, x2, y2)
                    } by {
                        lemma_update_frame(gmid, x as int, dest - 1, c, x2, y2);
                    }
                    assert forall|k: int|
                        0 <= k < g0.len() && !playable(k / 26, k % 26) implies #[trigger] g@[k]
                        == g0[k] by {
                        lemma_flat_decompose(x as int, dest - 1);
                        if k != x as int * 26 + (dest - 1) {
                            assert(g@[k] == gmid[k]);
                        }
                    }
                }
                x = x + 1;
            }
            dest = dest - 1;
            proof {
                assert(kept_from(g0, y as int) == seq![y as int] + kept_from(g0, y + 1));
                assert forall|x2: int, d: int| 2 <= x2 < 12 && dest <= d < 24 implies #[trigger]
                    grid_cell(g@, x2, d) == grid_cell(
                    g0,
                    x2,
                    kept_from(g0, y as int)[d - dest],
                ) by {
                    if d == dest {
                        assert(kept_from(g0, y as int)[0] == y as int);
                    } else {
                        assert(kept_from(g0, y as int)[d - dest] == kept_from(g0, y + 1)[d - dest
                            - 1]);
                        assert(grid_cell(g@, x2, d) == grid_cell(gpre, x2, d));
                    }
                }
            }
        } else {
            proof {
                assert(kept_from(g0, y as int) == kept_from(g0, y + 1));
            }
        }
    }
    proof {
        lemma_kept_len(g0, 0);
    }
    let cleared = dest;
    let mut y2: usize = 0;
    while y2 < cleared
        invariant
            g.wf(),
            y2 <= cleared,
            cleared <= 24,
            g0.len() == 14 * 26,
            cleared == full_count_from(g0, 0),
            forall|k: int|
                0 <= k < g0.len() && !playable(k / 26, k % 26) ==> #[trigger] g@[k] == g0[k],
            forall|x2: int, d: int|
                2 <= x2 < 12 && cleared <= d < 24 ==> #[trigger] grid_cell(g@, x2, d) == grid_cell(
                    g0,
                    x2,
                    kept_from(g0, 0)[d - cleared],
                ),
            forall|x2: int, d: int|
                2 <= x2 < 12 && 0 <= d < y2 ==> #[trigger] grid_cell(g@, x2, d) == Cell::Empty,
        decreases cleared - y2,
    {
        let mut x: usize = 2;
        while x < 12
            invariant
                g.wf(),
                2 <= x <= 12,
                y2 < cleared,
                cleared <= 24,
                g0.len() == 14 * 26,
                forall|k: int|
                    0 <= k < g0.len() && !playable(k / 26, k % 26) ==> #[trigger] g@[k] == g0[k],
                forall|x2: int, d: int|
                    2 <= x2 < 12 && cleared <= d < 24 ==> #[trigger] grid_cell(g@, x2, d)
                        == grid_cell(g0, x2, kept_from(g0, 0)[d - cleared]),
                forall|x2: int, d: int|
                    2 <= x2 < 12 && 0 <= d < y2 ==> #[trigger] grid_cell(g@, x2, d) == Cell::Empty,
                forall|x2: int|
                    2 <= x2 < x ==> #[trigger] grid_cell(g@, x2, y2 as int) == Cell::Empty,
            decreases 12 - x,
        {
            let ghost gmid = g@;
            g.set_cell(x, y2, Cell::Empty);
            proof {
                assert forall|xx: int, yy: int| in_grid(xx, yy) implies #[trigger] grid_cell(
                    g@,
                    xx,
                    yy,
                ) == if xx == x as int && yy == y2 as int {
                    Cell::Empty
                } else {
                    grid_cell(gmid, xx, yy)
                } by {
                    lemma_update_frame(gmid, x as int, y2 as int, Cell::Empty, xx, yy);
                }
                assert forall|k: int|
                    0 <= k < g0.len() && !playable(k / 26, k % 26) implies #[trigger] g@[k]
                    == g0[k] by {
                    lemma_flat_decompose(x as int, y2 as int);
                    if k != x as int * 26 + y2 as int {
                        assert(g@[k] == gmid[k]);
                    }
                }
            }
            x = x + 1;
        }
        y2 = y2 + 1;
    }
    proof {
        lemma_kept_len(g0, 0);
        assert forall|k: int| 0 <= k < g0.len() implies g@[k] == collapse_spec(g0)[k] by {
            let x = k / 26;
            let yy = k % 26;
            assert(0 <= x < 14 && 0 <= yy < 26) by (nonlinear_arith)
                requires
                    0 <= k < 364,
                    x == k / 26,
                    yy == k % 26,
            ;
            assert(k == x * 26 + yy) by (nonlinear_arith)
                requires
                    x == k / 26,
                    yy == k % 26,
            ;
            if playable(x, yy) {
                assert(g@[k] == grid_cell(g@, x, yy));
            }
        }
        assert(g@ =~= collapse_spec(g0));
    }
    cleared
}

/// With no full row anywhere, every row is kept in place.
proof fn lemma_kept_all(g: Seq<Cell>, y: int)
    requires
        0 <= y <= 24,
        full_count_from(g, y) == 0,
    ensures
        kept_from(g, y).len() == 24 - y,
        forall|j: int| 0 <= j < 24 - y ==> #[trigger] kept_from(g, y)[j] == y + j,
    decreases 24 - y,
{
    if y < 24 {
        lemma_kept_len(g, y + 1);
        lemma_kept_all(g, y + 1);
        assert(!row_full(g, y));
        assert forall|j: int| 0 <= j < 24 - y implies #[trigger] kept_from(g, y)[j] == y + j by {
            if j > 0 {
                assert(kept_from(g, y)[j] == kept_from(g, y + 1)[j - 1]);
            }
        }
    }
}

/// Row collapse is idempotent: on a board with no full rows it changes
/// nothing.
pub proof fn lemma_collapse_identity(g: Seq<Cell>)
    requires
        g.len() == 14 * 26,
        full_count(g) == 0,
    ensures
        collapse_spec(g) == g,
{
    lemma_kept_all(g, 0);
    assert forall|k: int| 0 <= k < g.len() implies collapse_spec(g)[k] == g[k] by {
        let x = k / 26;
        let yy = k % 26;
        assert(0 <= x < 14 && 0 <= yy < 26) by (nonlinear_arith)
            requires
                0 <= k < 364,
                x == k / 26,
                yy == k % 26,
        ;
        assert(k == x * 26 + yy) by (nonlinear_arith)
            requires
                x == k / 26,
                yy == k % 26,
        ;
        if playable(x, yy) {
            assert(kept_from(g, 0)[yy] == yy);
        }
    }
    assert(collapse_spec(g) =~= g);
}

/// After a collapse no full row is left: cleared rows are empty and the
/// surviving rows were not full.
pub proof fn lemma_collapse_no_full(g: Seq<Cell>)
    requires
        g.len() == 14 * 26,
    ensures
        forall|y: int| 0 <= y < 24 ==> !row_full(collapse_spec(g), y),
{
    lemma_kept_len(g, 0);
    lemma_kept_elems(g, 0);
    let res = collapse_spec(g);
    let cleared = 24 - kept_from(g, 0).len();
    assert forall|y: int| 0 <= y < 24 implies !row_full(res, y) by {
        lemma_collapse_cell(g, 2, y);
        if y < cleared {
            assert(grid_cell(res, 2, y) == Cell::Empty);
        } else {
            let src = kept_from(g, 0)[y - cleared];
            assert(!row_full(g, src));
            let x = choose|x: int| 2 <= x < 12 && grid_cell(g, x, src) != Cell::Locked;
            lemma_collapse_cell(g, x, y);
            assert(grid_cell(res, x, y) != Cell::Locked);
        }
    }
}

/// Number of locked cells in row y from column x rightward.
pub open spec fn row_locked_from(g: Seq<Cell>, y: int, x: int) -> int
    decreases 12 - x,
{
    if x >= 12 {
        0
    } else {
        (if grid_cell(g, x, y) == Cell::Locked {
            1int
        } else {
            0int
        }) + row_locked_from(g, y, x + 1)
    }
}

/// Number of locked cells in the playable part of row y.
pub open spec fn row_locked(g: Seq<Cell>, y: int) -> int {
    row_locked_from(g, y, 2)
}

/// Number of locked cells in the playable rows from y downward.
pub open spec fn total_locked_from(g: Seq<Cell>, y: int) -> int
    decreases 24 - y,
{
    if y >= 24 {
        0
    } else {
        row_locked(g, y) + total_locked_from(g, y + 1)
    }
}

/// Number of locked cells on the whole playfield.
pub open spec fn total_locked(g: Seq<Cell>) -> int {
    total_locked_from(g, 0)
}

/// Rows with equal playable cells hold equally many locked cells.
proof fn lemma_row_locked_congruent(g1: Seq<Cell>, g2: Seq<Cell>, y1: int, y2: int, x: int)
    requires
        2 <= x <= 12,
        forall|x2: int| 2 <= x2 < 12 ==> #[trigger] grid_cell(g1, x2, y1) == grid_cell(g2, x2, y2),
    ensures
        row_locked_from(g1, y1, x) == row_locked_from(g2, y2, x),
    decreases 12 - x,
{
    if x < 12 {
        lemma_row_locked_congruent(g1, g2, y1, y2, x + 1);
    }
}

/// A full row holds ten locked cells.
proof fn lemma_row_full_locked(g: Seq<Cell>, y: int, x: int)
    requires
        row_full(g, y),
        2 <= x <= 12,
    ensures
        row_locked_from(g, y, x) == 12 - x,
    decreases 12 - x,
{
    if x < 12 {
        lemma_row_full_locked(g, y, x + 1);
    }
}

/// A row of empty playable cells holds no locked cell.
proof fn lemma_row_empty_locked(g: Seq<Cell>, y: int, x: int)
    requires
        2 <= x <= 12,
        forall|x2: int| 2 <= x2 < 12 ==> #[trigger] grid_cell(g, x2, y) == Cell::Empty,
    ensures
        row_locked_from(g, y, x) == 0,
    decreases 12 - x,
{
    if x < 12 {
        lemma_row_empty_locked(g, y, x + 1);
    }
}

/// Locked cells summed over a list of row indices.
spec fn sum_locked_rows(g: Seq<Cell>, ks: Seq<int>) -> int
    decreases ks.len(),
{
    if ks.len() == 0 {
        0
    } else {
        row_locked(g, ks[0]) + sum_locked_rows(g, ks.drop_first())
    }
}

/// Split the locked-cell total into the kept rows and ten per full row.
proof fn lemma_total_split(g: Seq<Cell>, y: int)
    requires
        0 <= y <= 24,
    ensures
        total_locked_from(g, y) == sum_locked_rows(g, kept_from(g, y)) + 10 * full_count_from(
            g,
            y,
        ),
    decreases 24 - y,
{
    if y < 24 {
        lemma_total_split(g, y + 1);
        if row_full(g, y) {
            lemma_row_full_locked(g, y, 2);
        } else {
            let ks = kept_from(g, y);
            assert(ks[0] == y);
            assert(ks.drop_first() =~= kept_from(g, y + 1));
        }
    }
}

/// The locked-cell total of the collapsed board, from row d downward,
/// equals the sum over the kept rows not yet placed above d.
proof fn lemma_total_res_from(g: Seq<Cell>, d: int)
    requires
        g.len() == 14 * 26,
        24 - kept_from(g, 0).len() <= d <= 24,
    ensures
        total_locked_from(collapse_spec(g), d) == sum_locked_rows(
            g,
            kept_from(g, 0).skip(d - (24 - kept_from(g, 0).len())),
        ),
    decreases 24 - d,
{
    lemma_kept_len(g, 0);
    let res = collapse_spec(g);
    let kept = kept_from(g, 0);
    let cleared = 24 - kept.len();
    if d == 24 {
        assert(kept.skip(kept.len() as int) =~= Seq::<int>::empty());
    } else {
        lemma_total_res_from(g, d + 1);
        let i = d - cleared;
        assert forall|x2: int| 2 <= x2 < 12 implies #[trigger] grid_cell(res, x2, d) == grid_cell(
            g,
            x2,
            kept[i],
        ) by {
            lemma_collapse_cell(g, x2, d);
        }
        lemma_row_locked_congruent(res, g, d, kept[i], 2);
        assert(kept.skip(i)[0] == kept[i]);
        assert(kept.skip(i).drop_first() =~= kept.skip(i + 1));
    }
}

/// The cleared rows at the top of the collapsed board hold no locked cell.
proof fn lemma_total_res_top(g: Seq<Cell>, d: int)
    requires
        g.len() == 14 * 26,
        0 <= d <= 24 - kept_from(g, 0).len(),
    ensures
        total_locked_from(collapse_spec(g), d) == total_locked_from(
            collapse_spec(g),
            24 - kept_from(g, 0).len(),
        ),
    decreases 24 - d,
{
    lemma_kept_len(g, 0);
    let res = collapse_spec(g);
    let cleared = 24 - kept_from(g, 0).len();
    if d < cleared {
        lemma_total_res_top(g, d + 1);
        assert forall|x2: int| 2 <= x2 < 12 implies #[trigger] grid_cell(res, x2, d)
            == Cell::Empty by {
            lemma_collapse_cell(g, x2, d);
        }
        lemma_row_empty_locked(res, d, 2);
    }
}

/// Row collapse removes exactly ten locked cells for each full row and
/// keeps every other locked cell.
pub proof fn lemma_collapse_locked_count(g: Seq<Cell>)
    requires
        g.len() == 14 * 26,
    ensures
        total_locked(collapse_spec(g)) == total_locked(g) - 10 * full_count(g),
{
    lemma_kept_len(g, 0);
    lemma_total_split(g, 0);
    let cleared = 24 - kept_from(g, 0).len();
    lemma_total_res_top(g, 0);
    lemma_total_res_from(g, cleared);
    assert(kept_from(g, 0).skip(0) =~= kept_from(g, 0));
}

/// Indicator sum: how many of the four row indices lie at or below y.
spec fn rows_at_or_below(r0: int, r1: int, r2: int, r3: int, y: int) -> int {
    (if r0 >= y {
        1int
    } else {
        0int
    }) + (if r1 >= y {
        1int
    } else {
        0int
    }) + (if r2 >= y {
        1int
    } else {
        0int
    }) + (if r3 >= y {
        1int
    } else {
        0int
    })
}

/// If every full row is one of four given rows, at most four rows are full.
proof fn lemma_full_count_bounded(g: Seq<Cell>, y: int, r0: int, r1: int, r2: int, r3: int)
    requires
        0 <= y <= 24,
        forall|y2: int| y <= y2 < 24 && #[trigger] row_full(g, y2) ==> y2 == r0 || y2 == r1 || y2
            == r2 || y2 == r3,
    ensures
        full_count_from(g, y) <= rows_at_or_below(r0, r1, r2, r3, y),
    decreases 24 - y,
{
    if y < 24 {
        lemma_full_count_bounded(g, y + 1, r0, r1, r2, r3);
        assert(rows_at_or_below(r0, r1, r2, r3, y) >= rows_at_or_below(r0, r1, r2, r3, y + 1));
        if row_full(g, y) {
            assert(rows_at_or_below(r0, r1, r2, r3, y) >= rows_at_or_below(r0, r1, r2, r3, y + 1)
                + 1);
        }
    }
}

/// Locking a piece on a board with no full row creates full rows only in
/// the rows the piece occupies: each is at or below the piece's anchor
/// row, and there are between zero and four of them.
pub proof fn lemma_lock_full_rows(g: Seq<Cell>, p: Piece)
    requires
        g.len() == 14 * 26,
        piece_in_bounds(p),
        forall|y: int| 0 <= y < 24 ==> !row_full(g, y),
    ensures
        forall|y: int|
            0 <= y < 24 && #[trigger] row_full(plot_spec(g, p, Cell::Locked), y) ==> p.y <= y
                && piece_covers_row(p, y),
        0 <= full_count(plot_spec(g, p, Cell::Locked)) <= 4,
{
    let g1 = plot_spec(g, p, Cell::Locked);
    lemma_offsets_bounds(p.kind, p.rotation);
    assert forall|y: int| 0 <= y < 24 && #[trigger] row_full(g1, y) implies p.y <= y
        && piece_covers_row(p, y) by {
        if forall|x: int| 2 <= x < 12 ==> !piece_covers(p, x, y) {
            assert forall|x: int| 2 <= x < 12 implies #[trigger] grid_cell(g1, x, y) == grid_cell(
                g,
                x,
                y,
            ) by {
                lemma_plot_cell(g, p, Cell::Locked, x, y);
            }
            lemma_row_full_congruent(g1, g, y);
            assert(false);
        }
        let x = choose|x: int| 2 <= x < 12 && piece_covers(p, x, y);
        let i = choose|i: int| 0 <= i < 4 && #[trigger] piece_cells(p)[i] == (x, y);
        assert(piece_cells(p)[i].1 == p.y + crate::pieces::spec_offsets(p.kind, p.rotation)[i].1);
    }
    lemma_kept_len(g1, 0);
    let r0 = piece_cells(p)[0].1;
    let r1 = piece_cells(p)[1].1;
    let r2 = piece_cells(p)[2].1;
    let r3 = piece_cells(p)[3].1;
    assert forall|y2: int| 0 <= y2 < 24 && #[trigger] row_full(g1, y2) implies y2 == r0 || y2 == r1
        || y2 == r2 || y2 == r3 by {
        let x = choose|x: int| 2 <= x < 12 && piece_covers(p, x, y2);
        let i = choose|i: int| 0 <= i < 4 && #[trigger] piece_cells(p)[i] == (x, y2);
    }
    lemma_full_count_bounded(g1, 0, r0, r1, r2, r3);
}

/// Whether some cell of the pose lies in the given row.
pub open spec fn piece_covers_row(p: Piece, y: int) -> bool {
    exists|i: int| 0 <= i < 4 && #[trigger] piece_cells(p)[i].1 == y
}

/// Counting over a wider span of rows counts at least as many full rows.
proof fn lemma_full_count_monotone(g: Seq<Cell>, y1: int, y2: int)
    requires
        0 <= y1 <= y2 <= 24,
    ensures
        full_count_from(g, y1) >= full_count_from(g, y2),
    decreases y2 - y1,
{
    if y1 < y2 {
        lemma_full_count_monotone(g, y1 + 1, y2);
    }
}

/// With exactly one full row on the board, every full row is that row.
pub proof fn lemma_single_full_row_unique(g: Seq<Cell>, yf: int, y2: int)
    requires
        full_count_from(g, 0) == 1,
        0 <= yf < 24,
        row_full(g, yf),
        0 <= y2 < 24,
        row_full(g, y2),
    ensures
        y2 == yf,
{
    if y2 != yf {
        let lo = if yf < y2 {
            yf
        } else {
            y2
        };
        let hi = if yf < y2 {
            y2
        } else {
            yf
        };
        lemma_full_count_pos(g, lo + 1);
        assert(lo + 1 <= hi < 24 && row_full(g, hi));
        assert(full_count_from(g, lo + 1) > 0);
        assert(full_count_from(g, lo) >= 2);
        lemma_full_count_monotone(g, 0, lo);
        assert(false);
    }
}

/// With a single full row at yf, the kept rows are all the others, in
/// order: below yf they keep their index, above it they shift by one.
pub proof fn lemma_kept_single(g: Seq<Cell>, yf: int, y: int)
    requires
        0 <= y <= 24,
        0 <= yf < 24,
        row_full(g, yf),
        forall|y2: int| 0 <= y2 < 24 && y2 != yf ==> !row_full(g, y2),
    ensures
        y > yf ==> kept_from(g, y).len() == 24 - y && (forall|j: int|
            0 <= j < 24 - y ==> #[trigger] kept_from(g, y)[j] == y + j),
        y <= yf ==> kept_from(g, y).len() == 23 - y && (forall|j: int|
            0 <= j < 23 - y ==> #[trigger] kept_from(g, y)[j] == (if y + j < yf {
                y + j
            } else {
                y + j + 1
            })),
    decreases 24 - y,
{
    if y < 24 {
        lemma_kept_single(g, yf, y + 1);
        if y == yf {
            assert(kept_from(g, y) == kept_from(g, y + 1));
        } else if y > yf {
            assert forall|j: int| 0 <= j < 24 - y implies #[trigger] kept_from(g, y)[j] == y
                + j by {
                if j > 0 {
                    assert(kept_from(g, y)[j] == kept_from(g, y + 1)[j - 1]);
                }
            }
        } else {
            assert forall|j: int| 0 <= j < 23 - y implies #[trigger] kept_from(g, y)[j] == (if y
                + j < yf {
                y + j
            } else {
                y + j + 1
            }) by {
                if j > 0 {
                    assert(kept_from(g, y)[j] == kept_from(g, y + 1)[j - 1]);
                }
            }
        }
    }
}

} // verus!
