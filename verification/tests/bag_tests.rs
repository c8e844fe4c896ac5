use tetris_core::bag::TetQueue;
use tetris_core::pieces::PieceKind;

fn kind_index(k: PieceKind) -> usize {
    match k {
        PieceKind::I => 0,
        PieceKind::O => 1,
        PieceKind::T => 2,
        PieceKind::J => 3,
        PieceKind::L => 4,
        PieceKind::S => 5,
        PieceKind::Z => 6,
    }
}

#[test]
fn first_bag_window_holds_each_kind_once() {
    let mut q = TetQueue::new();
    let mut counts = [0usize; 7];
    for _ in 0..7 {
        counts[kind_index(q.next())] += 1;
    }
    for c in counts.iter() {
        assert_eq!(*c, 1);
    }
}

#[test]
fn later_bag_windows_hold_each_kind_once() {
    let mut q = TetQueue::new();
    for window in 0..5 {
        let mut counts = [0usize; 7];
        for _ in 0..7 {
            counts[kind_index(q.next())] += 1;
        }
        for c in counts.iter() {
            assert_eq!(*c, 1, "window {} was not fair", window);
        }
    }
}

#[test]
fn peek_matches_the_following_next() {
    let mut q = TetQueue::new();
    for _ in 0..20 {
        let ahead = q.peek();
        assert_eq!(ahead, q.next());
    }
}
