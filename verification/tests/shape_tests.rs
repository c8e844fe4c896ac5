use tetris_core::pieces::{occupied_offsets, PieceKind};

fn all_kinds() -> Vec<PieceKind> {
    vec![
        PieceKind::I,
        PieceKind::O,
        PieceKind::T,
        PieceKind::J,
        PieceKind::L,
        PieceKind::S,
        PieceKind::Z,
    ]
}

#[test]
fn shape_table_has_four_distinct_offsets_per_pose() {
    for kind in all_kinds() {
        for rotation in 0..4u8 {
            let offs = occupied_offsets(kind, rotation);
            assert_eq!(offs.len(), 4);
            for i in 0..4 {
                assert!(offs[i].0 <= 3 && offs[i].1 <= 3);
                for j in (i + 1)..4 {
                    assert_ne!(offs[i], offs[j]);
                }
            }
        }
    }
}

#[test]
fn shape_table_matches_known_entries() {
    let i0 = occupied_offsets(PieceKind::I, 0);
    assert_eq!(i0, vec![(0, 1), (1, 1), (2, 1), (3, 1)]);
    let i1 = occupied_offsets(PieceKind::I, 1);
    assert_eq!(i1, vec![(2, 0), (2, 1), (2, 2), (2, 3)]);
    let t2 = occupied_offsets(PieceKind::T, 2);
    assert_eq!(t2, vec![(0, 1), (1, 1), (2, 1), (1, 2)]);
    let z3 = occupied_offsets(PieceKind::Z, 3);
    assert_eq!(z3, vec![(1, 0), (0, 1), (1, 1), (0, 2)]);
}

#[test]
fn o_kind_is_rotation_invariant() {
    let base = occupied_offsets(PieceKind::O, 0);
    for rotation in 1..4u8 {
        assert_eq!(occupied_offsets(PieceKind::O, rotation), base);
    }
}
