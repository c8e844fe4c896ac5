use vstd::prelude::*;

verus! {

/// The seven tetromino kinds.
#[derive(Clone, Copy, Debug, PartialEq, Eq, Structural)]
pub enum PieceKind {
    I,
    O,
    T,
    J,
    L,
    S,
    Z,
}

/// Numeric code of a kind; the bag queue stores kinds as bytes.
pub open spec fn code_of_kind(k: PieceKind) -> u8 {
    match k {
        PieceKind::I => 0,
        PieceKind::O => 1,
        PieceKind::T => 2,
        PieceKind::J => 3,
        PieceKind::L => 4,
        PieceKind::S => 5,
        PieceKind::Z => 6,
    }
}

/// The kind a byte code stands for; codes at 7 and above fall back to Z.
pub open spec fn kind_of_code(c: u8) -> PieceKind {
    if c == 0 {
        PieceKind::I
    } else if c == 1 {
        PieceKind::O
    } else if c == 2 {
        PieceKind::T
    } else if c == 3 {
        PieceKind::J
    } else if c == 4 {
        PieceKind::L
    } else if c == 5 {
        PieceKind::S
    } else {
        PieceKind::Z
    }
}

pub fn kind_from_code(c: u8) -> (k: PieceKind)
    ensures
        k == kind_of_code(c),
{
    if c == 0 {
        PieceKind::I
    } else if c == 1 {
        PieceKind::O
    } else if c == 2 {
        PieceKind::T
    } else if c == 3 {
        PieceKind::J
    } else if c == 4 {
        PieceKind::L
    } else if c == 5 {
        PieceKind::S
    } else {
        PieceKind::Z
    }
}

pub proof fn lemma_code_roundtrip(c: u8)
    requires
        c < 7,
    ensures
        code_of_kind(kind_of_code(c)) == c,
{
}

/// A piece pose: kind, rotation index in [0,4), and anchor cell. The four
/// occupied cells are the anchor plus the offsets of `spec_offsets`.
#[derive(Clone, Copy, Debug, PartialEq, Eq, Structural)]
pub struct Piece {
    pub kind: PieceKind,
    pub rotation: u8,
    pub x: usize,
    pub y: usize,
}

/// The shape table: for each kind and rotation index, the four cell offsets
/// relative to the piece's anchor. The data is deliberately literal, not
/// derived from a rotation formula; play compatibility depends on these
/// exact offsets. Rotation indices at 3 and above share the last entry.
pub open spec fn spec_offsets(kind: PieceKind, rotation: u8) -> Seq<(int, int)> {
    match kind {
        PieceKind::I => if rotation == 0 {
            seq![(0int, 1int), (1int, 1int), (2int, 1int), (3int, 1int)]
        } else if rotation == 1 {
            seq![(2int, 0int), (2int, 1int), (2int, 2int), (2int, 3int)]
        } else if rotation == 2 {
            seq![(0int, 2int), (1int, 2int), (2int, 2int), (3int, 2int)]
        } else {
            seq![(1int, 0int), (1int, 1int), (1int, 2int), (1int, 3int)]
        },
        PieceKind::O => seq![(0int, 0int), (1int, 0int), (0int, 1int), (1int, 1int)],
        PieceKind::T => if rotation == 0 {
            seq![(1int, 0int), (0int, 1int), (1int, 1int), (2int, 1int)]
        } else if rotation == 1 {
            seq![(1int, 0int), (1int, 1int), (1int, 2int), (2int, 1int)]
        } else if rotation == 2 {
            seq![(0int, 1int), (1int, 1int), (2int, 1int), (1int, 2int)]
        } else {
            seq![(0int, 1int), (1int, 0int), (1int, 1int), (1int, 2int)]
        },
        PieceKind::J => if rotation == 0 {
            seq![(0int, 0int), (0int, 1int), (1int, 1int), (2int, 1int)]
        } else if rotation == 1 {
            seq![(1int, 0int), (1int, 1int), (1int, 2int), (2int, 0int)]
        } else if rotation == 2 {
            seq![(0int, 1int), (1int, 1int), (2int, 1int), (2int, 2int)]
        } else {
            seq![(0int, 2int), (1int, 0int), (1int, 1int), (1int, 2int)]
        },
        PieceKind::L => if rotation == 0 {
            seq![(2int, 0int), (0int, 1int), (1int, 1int), (2int, 1int)]
        } else if rotation == 1 {
            seq![(1int, 0int), (1int, 1int), (1int, 2int), (2int, 2int)]
        } else if rotation == 2 {
            seq![(0int, 1int), (1int, 1int), (2int, 1int), (0int, 2int)]
        } else {
            seq![(0int, 0int), (1int, 0int), (1int, 1int), (1int, 2int)]
        },
        PieceKind::S => if rotation == 0 {
            seq![(1int, 0int), (2int, 0int), (0int, 1int), (1int, 1int)]
        } else if rotation == 1 {
            seq![(1int, 0int), (1int, 1int), (2int, 1int), (2int, 2int)]
        } else if rotation == 2 {
            seq![(1int, 1int), (2int, 1int), (0int, 2int), (1int, 2int)]
        } else {
            seq![(0int, 0int), (0int, 1int), (1int, 1int), (1int, 2int)]
        },
        PieceKind::Z => if rotation == 0 {
            seq![(0int, 0int), (1int, 0int), (1int, 1int), (2int, 1int)]
        } else if rotation == 1 {
            seq![(2int, 0int), (1int, 1int), (2int, 1int), (1int, 2int)]
        } else if rotation == 2 {
            seq![(0int, 1int), (1int, 1int), (1int, 2int), (2int, 2int)]
        } else {
            seq![(1int, 0int), (0int, 1int), (1int, 1int), (0int, 2int)]
        },
    }
}

/// Every entry of the shape table holds four offsets, each within a 4 by 4
/// box at the anchor.
pub proof fn lemma_offsets_bounds(kind: PieceKind, rotation: u8)
    ensures
        spec_offsets(kind, rotation).len() == 4,
        forall|i: int|
            0 <= i < 4 ==> 0 <= #[trigger] spec_offsets(kind, rotation)[i].0 <= 3
                && 0 <= spec_offsets(kind, rotation)[i].1 <= 3,
{
}

/// Shape-table completeness: every pose occupies four pairwise distinct
/// cells.
pub proof fn lemma_offsets_distinct(kind: PieceKind, rotation: u8)
    ensures
        forall|i: int, j: int|
            0 <= i < j < 4 ==> #[trigger] spec_offsets(kind, rotation)[i]
                != #[trigger] spec_offsets(kind, rotation)[j],
{
}

/// The four occupied offsets of the given pose, as data.
pub fn occupied_offsets(kind: PieceKind, rotation: u8) -> (offs: Vec<(usize, usize)>)
    ensures
        offs@.len() == 4,
        forall|i: int|
            0 <= i < 4 ==> #[trigger] offs@[i].0 as int == spec_offsets(kind, rotation)[i].0
                && offs@[i].1 as int == spec_offsets(kind, rotation)[i].1,
        forall|i: int| 0 <= i < 4 ==> #[trigger] offs@[i].0 <= 3 && offs@[i].1 <= 3,
{
    match kind {
        PieceKind::I => if rotation == 0 {
            vec![(0, 1), (1, 1), (2, 1), (3, 1)]
        } else if rotation == 1 {
            vec![(2, 0), (2, 1), (2, 2), (2, 3)]
        } else if rotation == 2 {
            vec![(0, 2), (1, 2), (2, 2), (3, 2)]
        } else {
            vec![(1, 0), (1, 1), (1, 2), (1, 3)]
        },
        PieceKind::O => vec![(0, 0), (1, 0), (0, 1), (1, 1)],
        PieceKind::T => if rotation == 0 {
            vec![(1, 0), (0, 1), (1, 1), (2, 1)]
        } else if rotation == 1 {
            vec![(1, 0), (1, 1), (1, 2), (2, 1)]
        } else if rotation == 2 {
            vec![(0, 1), (1, 1), (2, 1), (1, 2)]
        } else {
            vec![(0, 1), (1, 0), (1, 1), (1, 2)]
        },
        PieceKind::J => if rotation == 0 {
            vec![(0, 0), (0, 1), (1, 1), (2, 1)]
        } else if rotation == 1 {
            vec![(1, 0), (1, 1), (1, 2), (2, 0)]
        } else if rotation == 2 {
            vec![(0, 1), (1, 1), (2, 1), (2, 2)]
        } else {
            vec![(0, 2), (1, 0), (1, 1), (1, 2)]
        },
        PieceKind::L => if rotation == 0 {
            vec![(2, 0), (0, 1), (1, 1), (2, 1)]
        } else if rotation == 1 {
            vec![(1, 0), (1, 1), (1, 2), (2, 2)]
        } else if rotation == 2 {
            vec![(0, 1), (1, 1), (2, 1), (0, 2)]
        } else {
            vec![(0, 0), (1, 0), (1, 1), (1, 2)]
        },
        PieceKind::S => if rotation == 0 {
            vec![(1, 0), (2, 0), (0, 1), (1, 1)]
        } else if rotation == 1 {
            vec![(1, 0), (1, 1), (2, 1), (2, 2)]
        } else if rotation == 2 {
            vec![(1, 1), (2, 1), (0, 2), (1, 2)]
        } else {
            vec![(0, 0), (0, 1), (1, 1), (1, 2)]
        },
        PieceKind::Z => if rotation == 0 {
            vec![(0, 0), (1, 0), (1, 1), (2, 1)]
        } else if rotation == 1 {
            vec![(2, 0), (1, 1), (2, 1), (1, 2)]
        } else if rotation == 2 {
            vec![(0, 1), (1, 1), (1, 2), (2, 2)]
        } else {
            vec![(1, 0), (0, 1), (1, 1), (0, 2)]
        },
    }
}

/// The four cells a pose occupies: anchor plus each table offset.
pub open spec fn piece_cells(p: Piece) -> Seq<(int, int)> {
    Seq::new(
        4,
        |i: int|
            (
                p.x + spec_offsets(p.kind, p.rotation)[i].0,
                p.y + spec_offsets(p.kind, p.rotation)[i].1,
            ),
    )
}

/// Whether the pose covers the given cell.
pub open spec fn piece_covers(p: Piece, x: int, y: int) -> bool {
    exists|i: int| 0 <= i < 4 && #[trigger] piece_cells(p)[i] == (x, y)
}

/// Spawn pose of a freshly dealt piece: the I kind starts on its side flush
/// with the top, every other kind starts in rotation 0 two rows down.
pub open spec fn spec_spawn_piece(k: PieceKind) -> Piece {
    if k == PieceKind::I {
        Piece { kind: k, rotation: 1, x: 6, y: 0 }
    } else {
        Piece { kind: k, rotation: 0, x: 6, y: 2 }
    }
}

pub fn spawn_piece(k: PieceKind) -> (p: Piece)
    ensures
        p == spec_spawn_piece(k),
{
    if k == PieceKind::I {
        Piece { kind: k, rotation: 1, x: 6, y: 0 }
    } else {
        Piece { kind: k, rotation: 0, x: 6, y: 2 }
    }
}

/// Pose of the preview piece inside the small next-piece panel.
pub open spec fn spec_set_next_piece(k: PieceKind) -> Piece {
    if k == PieceKind::I {
        Piece { kind: k, rotation: 1, x: 0, y: 0 }
    } else {
        Piece { kind: k, rotation: 0, x: 1, y: 1 }
    }
}

pub fn set_next_piece(k: PieceKind) -> (p: Piece)
    ensures
        p == spec_set_next_piece(k),
{
    if k == PieceKind::I {
        Piece { kind: k, rotation: 1, x: 0, y: 0 }
    } else {
        Piece { kind: k, rotation: 0, x: 1, y: 1 }
    }
}

} // verus!
