use screenzoom::camera::{camera_state_at, keyframe_order, CameraState};
use screenzoom::project::{Easing, KeyframeSource, ZoomKeyframe};

#[derive(Debug, Clone, Copy, PartialEq)]
struct Rect {
    x: f32,
    y: f32,
    w: f32,
    h: f32,
}

const ZOOM: Rect = Rect { x: 0.2, y: 0.2, w: 0.4, h: 0.4 };

fn kf(start_ms: u64, duration_ms: u64, target_rect: Rect, easing: Easing) -> ZoomKeyframe<Rect> {
    ZoomKeyframe { id: "kf_test".to_string(), start_ms, duration_ms, target_rect, easing, source: KeyframeSource::Auto }
}

#[test]
fn no_keyframes_stays_full_frame() {
    let none: Vec<ZoomKeyframe<Rect>> = Vec::new();
    assert_eq!(camera_state_at(&none, 0), CameraState::Hold(None));
    assert_eq!(camera_state_at(&none, 999_999), CameraState::Hold(None));
}

#[test]
fn before_first_keyframe_stays_full_frame() {
    let kfs = vec![kf(1_000, 600, ZOOM, Easing::Linear)];
    assert_eq!(camera_state_at(&kfs, 0), CameraState::Hold(None));
    assert_eq!(camera_state_at(&kfs, 999), CameraState::Hold(None));
}

#[test]
fn at_transition_start_rect_equals_previous_state() {
    // At the start instant nothing has elapsed yet: the camera is still on
    // the previous rectangle (the full frame).
    let kfs = vec![kf(1_000, 600, ZOOM, Easing::Linear)];
    assert_eq!(
        camera_state_at(&kfs, 1_000),
        CameraState::Transition { from: None, to: 0, elapsed_ms: 0, duration_ms: 600 }
    );
}

#[test]
fn at_transition_end_rect_equals_target_exactly() {
    let kfs = vec![kf(1_000, 600, ZOOM, Easing::Linear)];
    assert_eq!(camera_state_at(&kfs, 1_600), CameraState::Hold(Some(0)));
}

#[test]
fn holds_target_rect_after_transition_ends() {
    let kfs = vec![kf(1_000, 600, ZOOM, Easing::Linear)];
    assert_eq!(camera_state_at(&kfs, 50_000), CameraState::Hold(Some(0)));
}

#[test]
fn linear_easing_interpolates_proportionally_at_midpoint() {
    let kfs = vec![kf(0, 1_000, ZOOM, Easing::Linear)];
    match camera_state_at(&kfs, 500) {
        CameraState::Transition { from, to, elapsed_ms, duration_ms } => {
            assert_eq!((from, to), (None, 0));
            let progress = elapsed_ms as f32 / duration_ms as f32;
            assert!((progress - 0.5).abs() < 1e-6);
        }
        other => panic!("expected a transition, got {other:?}"),
    }
}

#[test]
fn ease_in_out_cubic_is_symmetric_at_midpoint() {
    let kfs = vec![kf(0, 1_000, ZOOM, Easing::EaseInOutCubic)];
    assert_eq!(
        camera_state_at(&kfs, 500),
        CameraState::Transition { from: None, to: 0, elapsed_ms: 500, duration_ms: 1_000 }
    );
}

#[test]
fn second_keyframe_interpolates_from_first_targets_rect_not_full_frame() {
    let zoom_a = Rect { x: 0.0, y: 0.0, w: 0.3, h: 0.3 };
    let zoom_b = Rect { x: 0.5, y: 0.5, w: 0.3, h: 0.3 };
    let kfs = vec![kf(0, 200, zoom_a, Easing::Linear), kf(1_000, 200, zoom_b, Easing::Linear)];
    assert_eq!(
        camera_state_at(&kfs, 1_100),
        CameraState::Transition { from: Some(0), to: 1, elapsed_ms: 100, duration_ms: 200 }
    );
}

#[test]
fn spring_easing_reaches_exact_endpoints() {
    let kfs = vec![kf(0, 1_000, ZOOM, Easing::Spring)];
    assert_eq!(
        camera_state_at(&kfs, 0),
        CameraState::Transition { from: None, to: 0, elapsed_ms: 0, duration_ms: 1_000 }
    );
    assert_eq!(camera_state_at(&kfs, 1_000), CameraState::Hold(Some(0)));
}

#[test]
fn zero_length_keyframe_switches_at_once() {
    let kfs = vec![kf(100, 0, ZOOM, Easing::Linear)];
    assert_eq!(camera_state_at(&kfs, 99), CameraState::Hold(None));
    assert_eq!(camera_state_at(&kfs, 100), CameraState::Hold(Some(0)));
}

#[test]
fn keyframes_are_played_in_start_order_with_ties_in_list_order() {
    let kfs = vec![
        kf(3_000, 600, ZOOM, Easing::Linear),
        kf(1_000, 600, ZOOM, Easing::Linear),
        kf(3_000, 100, ZOOM, Easing::Linear),
        kf(0, 600, ZOOM, Easing::Linear),
    ];
    assert_eq!(keyframe_order(&kfs), vec![3, 1, 0, 2]);
}
