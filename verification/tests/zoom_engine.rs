use screenzoom::project::{Easing, KeyframeSource, ZoomKeyframe};
use screenzoom::zoom::{
    click_order, generate_keyframes, keyframe_id_string, InputEventKind, TimedEvent, ZoomTarget,
    DEFAULT_EASING, INACTIVITY_ZOOM_OUT_MS,
};

// Pointer positions play no part in the timing decisions; the helpers keep
// the coordinates of the scenarios only as documentation of the input.
fn click(t_ms: u64, _x: f32, _y: f32) -> TimedEvent {
    TimedEvent { t_ms, kind: InputEventKind::ButtonPress }
}

fn mv(t_ms: u64, _x: f32, _y: f32) -> TimedEvent {
    TimedEvent { t_ms, kind: InputEventKind::Move }
}

fn is_full_frame(kf: &ZoomKeyframe<ZoomTarget>) -> bool {
    matches!(kf.target_rect, ZoomTarget::FullFrame)
}

fn cluster_of(kf: &ZoomKeyframe<ZoomTarget>) -> Vec<usize> {
    match &kf.target_rect {
        ZoomTarget::Cluster(v) => v.clone(),
        ZoomTarget::FullFrame => panic!("expected a zoom-in keyframe"),
    }
}

#[test]
fn no_events_produces_no_keyframes() {
    assert!(generate_keyframes(&vec![], 60_000).is_empty());
}

#[test]
fn only_move_events_no_clicks_produces_no_keyframes() {
    let events = vec![mv(0, 0.1, 0.1), mv(500, 0.5, 0.5), mv(1_000, 0.9, 0.9)];
    assert!(generate_keyframes(&events, 60_000).is_empty());
}

#[test]
fn isolated_click_produces_zoom_in_and_zoom_out() {
    let events = vec![click(1_000, 0.5, 0.5)];
    let kfs = generate_keyframes(&events, 60_000);

    assert_eq!(kfs.len(), 2, "an isolated click gives a zoom-in and a zoom-out");

    assert_eq!(kfs[0].start_ms, 1_000);
    assert_eq!(kfs[0].source, KeyframeSource::Auto);
    assert_eq!(kfs[0].easing, DEFAULT_EASING);
    assert!(!is_full_frame(&kfs[0]));

    assert_eq!(kfs[1].start_ms, 1_000 + INACTIVITY_ZOOM_OUT_MS);
    assert!(is_full_frame(&kfs[1]));
}

#[test]
fn two_isolated_clicks_far_apart_each_get_their_own_keyframes() {
    let events = vec![click(1_000, 0.2, 0.2), click(20_000, 0.8, 0.8)];
    let kfs = generate_keyframes(&events, 60_000);

    assert_eq!(kfs.len(), 4);
    assert_eq!(kfs[0].start_ms, 1_000);
    assert_eq!(kfs[1].start_ms, 1_000 + INACTIVITY_ZOOM_OUT_MS);
    assert_eq!(kfs[2].start_ms, 20_000);
    assert_eq!(kfs[3].start_ms, 20_000 + INACTIVITY_ZOOM_OUT_MS);
}

#[test]
fn clicks_close_in_time_collapse_into_a_single_zoom_in_keyframe() {
    let events = vec![click(1_000, 0.2, 0.2), click(1_300, 0.3, 0.3), click(1_600, 0.4, 0.4)];
    let kfs = generate_keyframes(&events, 60_000);

    assert_eq!(kfs.len(), 2, "clicks 300 ms apart form one cluster");
    assert_eq!(kfs[0].start_ms, 1_000, "the zoom-in starts at the first click of the cluster");
    // The zoom-in aims at all three clicks (their centroid is (0.3, 0.3)).
    assert_eq!(cluster_of(&kfs[0]), vec![0, 1, 2]);
}

#[test]
fn chained_clicks_stay_in_one_cluster_even_if_first_and_last_are_far_apart() {
    let events = vec![click(0, 0.0, 0.0), click(1_000, 0.2, 0.2), click(2_000, 0.4, 0.4), click(3_000, 0.6, 0.6)];
    let kfs = generate_keyframes(&events, 60_000);

    assert_eq!(kfs.len(), 2, "chained clicks stay one cluster");
    assert_eq!(kfs[0].start_ms, 0);
    assert_eq!(kfs[1].start_ms, 3_000 + INACTIVITY_ZOOM_OUT_MS);
}

#[test]
fn short_gap_between_clusters_does_not_trigger_zoom_out() {
    let events = vec![click(1_000, 0.2, 0.2), click(1_100, 0.2, 0.2), click(3_100, 0.8, 0.8)];
    let kfs = generate_keyframes(&events, 3_200);

    assert_eq!(kfs.len(), 2, "no zoom-out between close clusters");
    assert_eq!(kfs[0].start_ms, 1_000);
    assert_eq!(kfs[1].start_ms, 3_100);
}

#[test]
fn long_gap_between_clusters_inserts_zoom_out_before_the_next_zoom_in() {
    let events = vec![click(1_000, 0.2, 0.2), click(6_000, 0.8, 0.8)];
    let kfs = generate_keyframes(&events, 6_500);

    assert_eq!(kfs.len(), 3, "a zoom-out between distant clusters");
    assert_eq!(kfs[0].start_ms, 1_000);
    assert_eq!(kfs[1].start_ms, 1_000 + INACTIVITY_ZOOM_OUT_MS);
    assert!(is_full_frame(&kfs[1]));
    assert_eq!(kfs[2].start_ms, 6_000);
}

#[test]
fn trailing_inactivity_after_the_last_cluster_also_zooms_out() {
    let events = vec![click(1_000, 0.2, 0.2), click(6_000, 0.8, 0.8)];
    let kfs = generate_keyframes(&events, 60_000);

    assert_eq!(kfs.len(), 4, "a zoom-out after the last cluster too");
    assert_eq!(kfs[3].start_ms, 6_000 + INACTIVITY_ZOOM_OUT_MS);
    assert!(is_full_frame(&kfs[3]));
}

#[test]
fn no_trailing_zoom_out_if_it_would_land_past_the_recording_end() {
    let events = vec![click(59_900, 0.5, 0.5)];
    let kfs = generate_keyframes(&events, 60_000);

    assert_eq!(kfs.len(), 1, "no zoom-out after the end of the recording");
    assert_eq!(kfs[0].start_ms, 59_900);
}

#[test]
fn a_corner_click_is_the_whole_cluster_of_its_zoom_in() {
    // The rectangle around the cluster is computed by the program around
    // the library; the planner aims the zoom-in at the corner click.
    let events = vec![click(1_000, 0.0, 0.0)];
    let kfs = generate_keyframes(&events, 60_000);
    assert_eq!(cluster_of(&kfs[0]), vec![0]);
}

#[test]
fn keyframe_ids_are_unique_and_sequential() {
    let events = vec![click(1_000, 0.2, 0.2), click(10_000, 0.8, 0.8)];
    let kfs = generate_keyframes(&events, 60_000);
    let ids: Vec<&str> = kfs.iter().map(|k| k.id.as_str()).collect();
    assert_eq!(ids, vec!["kf_001", "kf_002", "kf_003", "kf_004"]);
}

#[test]
fn generated_keyframes_use_the_default_transition() {
    let events = vec![click(1_000, 0.2, 0.2)];
    let kfs = generate_keyframes(&events, 60_000);
    for kf in &kfs {
        assert_eq!(kf.duration_ms, 600);
        assert_eq!(kf.easing, Easing::EaseInOutCubic);
    }
}

#[test]
fn clicks_are_taken_in_time_order_with_ties_in_input_order() {
    let events = vec![
        click(5_000, 0.0, 0.0),
        mv(10, 0.0, 0.0),
        click(1_000, 0.0, 0.0),
        TimedEvent { t_ms: 1_000, kind: InputEventKind::ButtonRelease },
        click(1_000, 0.0, 0.0),
    ];
    assert_eq!(click_order(&events), vec![2, 4, 0]);
}

#[test]
fn unsorted_clicks_are_clustered_in_time_order() {
    let events = vec![click(1_500, 0.0, 0.0), click(1_000, 0.0, 0.0), click(9_000, 0.0, 0.0)];
    let kfs = generate_keyframes(&events, 60_000);
    assert_eq!(kfs.len(), 4);
    assert_eq!(cluster_of(&kfs[0]), vec![1, 0]);
    assert_eq!(kfs[1].start_ms, 1_500 + INACTIVITY_ZOOM_OUT_MS);
    assert_eq!(cluster_of(&kfs[2]), vec![2]);
}

#[test]
fn clicks_after_the_recording_end_get_no_keyframe() {
    let events = vec![click(1_000, 0.0, 0.0), click(70_000, 0.0, 0.0)];
    let kfs = generate_keyframes(&events, 60_000);
    assert_eq!(kfs.len(), 2);
    assert_eq!(kfs[1].start_ms, 4_000);
}

#[test]
fn a_click_exactly_at_the_recording_end_keeps_its_zoom_in() {
    let events = vec![click(60_000, 0.5, 0.5)];
    let kfs = generate_keyframes(&events, 60_000);
    assert_eq!(kfs.len(), 1);
    assert_eq!(kfs[0].start_ms, 60_000);
    assert_eq!(cluster_of(&kfs[0]), vec![0]);
    assert!(generate_keyframes(&vec![click(60_001, 0.5, 0.5)], 60_000).is_empty());
}

#[test]
fn zoom_out_exactly_at_the_next_cluster_is_kept() {
    // Idle gap of exactly the inactivity threshold.
    let events = vec![click(1_000, 0.0, 0.0), click(4_000, 0.0, 0.0)];
    let kfs = generate_keyframes(&events, 4_500);
    let starts: Vec<u64> = kfs.iter().map(|k| k.start_ms).collect();
    assert_eq!(starts, vec![1_000, 4_000, 4_000]);
}

#[test]
fn keyframe_id_is_zero_padded_to_three_digits() {
    assert_eq!(keyframe_id_string(7), "kf_007");
    assert_eq!(keyframe_id_string(42), "kf_042");
    assert_eq!(keyframe_id_string(999), "kf_999");
    assert_eq!(keyframe_id_string(1234), "kf_1234");
}

/// The keyframes of `events` with each zoom-in given by its clicks.
fn plan_by_clicks(events: &Vec<TimedEvent>, d: u64) -> Vec<(String, u64, Option<Vec<TimedEvent>>)> {
    generate_keyframes(events, d)
        .into_iter()
        .map(|kf| {
            let target = match &kf.target_rect {
                ZoomTarget::Cluster(v) => Some(v.iter().map(|&i| events[i]).collect()),
                ZoomTarget::FullFrame => None,
            };
            (kf.id, kf.start_ms, target)
        })
        .collect()
}

#[test]
fn moves_releases_and_input_order_do_not_change_the_plan() {
    let release = |t_ms| TimedEvent { t_ms, kind: InputEventKind::ButtonRelease };
    let events = vec![
        mv(0, 0.1, 0.1),
        click(9_000, 0.5, 0.5),
        mv(100, 0.2, 0.2),
        click(1_000, 0.3, 0.3),
        release(1_100),
        click(1_500, 0.3, 0.4),
        click(20_000, 0.9, 0.9),
    ];
    let presses: Vec<TimedEvent> = events.iter().copied().filter(|e| e.kind == InputEventKind::ButtonPress).collect();
    let mut reversed = events.clone();
    reversed.reverse();
    let expected = plan_by_clicks(&events, 30_000);
    assert_eq!(expected.len(), 6);
    assert_eq!(plan_by_clicks(&presses, 30_000), expected);
    assert_eq!(plan_by_clicks(&reversed, 30_000), expected);
}
