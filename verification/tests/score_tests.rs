use tetris_core::engine::{get_score, score_delta};

#[test]
fn scoring_table_at_level_zero() {
    assert_eq!(get_score(1, 0), 40);
    assert_eq!(get_score(2, 0), 100);
    assert_eq!(get_score(3, 0), 300);
    assert_eq!(get_score(4, 0), 1200);
}

#[test]
fn scoring_scales_with_level() {
    assert_eq!(get_score(1, 1), 80);
    assert_eq!(get_score(2, 3), 400);
    assert_eq!(get_score(4, 9), 12000);
}

#[test]
fn score_delta_agrees_with_get_score() {
    for cleared in 1..5u32 {
        for level in 0..6u32 {
            assert_eq!(score_delta(cleared, level), get_score(cleared, level) as u64);
        }
    }
}
