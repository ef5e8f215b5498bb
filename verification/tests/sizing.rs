use stapler::calculate_column_count;

#[test]
fn width_800_gives_three_panes() {
    assert_eq!(calculate_column_count(800), 3);
}

#[test]
fn width_below_one_pane_gives_one() {
    assert_eq!(calculate_column_count(299), 1);
    assert_eq!(calculate_column_count(0), 1);
}

#[test]
fn width_at_a_boundary_counts_the_next_pane() {
    assert_eq!(calculate_column_count(300), 2);
    assert_eq!(calculate_column_count(599), 2);
    assert_eq!(calculate_column_count(600), 3);
}

#[test]
fn negative_width_gives_one_pane() {
    assert_eq!(calculate_column_count(-1), 1);
    assert_eq!(calculate_column_count(-600), 1);
    assert_eq!(calculate_column_count(i32::MIN), 1);
}

#[test]
fn widest_window_does_not_overflow() {
    assert_eq!(calculate_column_count(i32::MAX), i32::MAX / 300 + 1);
}
