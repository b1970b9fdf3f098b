use screenzoom::cursor::{cursor_sample_at, CursorSample};

#[test]
fn empty_points_has_no_position() {
    assert!(cursor_sample_at(&vec![], 0).is_none());
    assert!(cursor_sample_at(&vec![], 1_000).is_none());
}

#[test]
fn single_point_stays_fixed_everywhere() {
    let times = vec![500];
    assert_eq!(cursor_sample_at(&times, 0), Some(CursorSample::At(0)));
    assert_eq!(cursor_sample_at(&times, 999_999), Some(CursorSample::At(0)));
}

#[test]
fn before_first_and_after_last_clamp_to_endpoints() {
    let times = vec![100, 200];
    assert_eq!(cursor_sample_at(&times, 0), Some(CursorSample::At(0)));
    assert_eq!(cursor_sample_at(&times, 10_000), Some(CursorSample::At(1)));
    assert_eq!(cursor_sample_at(&times, 200), Some(CursorSample::At(1)));
}

#[test]
fn interpolates_linearly_between_smoothed_samples() {
    let times = vec![0, 1_000];
    assert_eq!(
        cursor_sample_at(&times, 500),
        Some(CursorSample::Between { index: 0, elapsed_ms: 500, span_ms: 1_000 })
    );
}

#[test]
fn pressed_state_switches_at_the_matching_sample() {
    let times = vec![0, 100];
    assert_eq!(cursor_sample_at(&times, 0), Some(CursorSample::At(0)));
    assert_eq!(cursor_sample_at(&times, 100), Some(CursorSample::At(1)));
}

#[test]
fn picks_the_first_segment_that_encloses_the_instant() {
    let times = vec![0, 10, 10, 30];
    assert_eq!(
        cursor_sample_at(&times, 10),
        Some(CursorSample::Between { index: 0, elapsed_ms: 10, span_ms: 10 })
    );
    assert_eq!(
        cursor_sample_at(&times, 20),
        Some(CursorSample::Between { index: 2, elapsed_ms: 10, span_ms: 20 })
    );
}

#[test]
fn unsorted_samples_still_give_a_position() {
    let times = vec![0, 50, 20, 100];
    assert_eq!(
        cursor_sample_at(&times, 60),
        Some(CursorSample::Between { index: 2, elapsed_ms: 40, span_ms: 80 })
    );
}
