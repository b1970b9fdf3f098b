use screenzoom::project::{delete_keyframe, upsert_keyframe, Easing, ExportResolution, ExportSettings, Codec, KeyframeSource, ZoomKeyframe};

#[derive(Debug, Clone, Copy, PartialEq)]
struct Rect {
    x: f32,
    y: f32,
    w: f32,
    h: f32,
}

fn sample_keyframes() -> Vec<ZoomKeyframe<Rect>> {
    vec![ZoomKeyframe {
        id: "kf_001".into(),
        start_ms: 0,
        duration_ms: 500,
        target_rect: Rect { x: 0.1, y: 0.1, w: 0.3, h: 0.3 },
        easing: Easing::EaseInOutCubic,
        source: KeyframeSource::Auto,
    }]
}

#[test]
fn upsert_keyframe_replaces_an_existing_id() {
    let edited = ZoomKeyframe {
        id: "kf_001".into(),
        start_ms: 100,
        duration_ms: 400,
        target_rect: Rect { x: 0.2, y: 0.2, w: 0.4, h: 0.4 },
        easing: Easing::Spring,
        source: KeyframeSource::Auto,
    };

    let updated = upsert_keyframe(edited, sample_keyframes());
    assert_eq!(updated.len(), 1);
    assert_eq!(updated[0].start_ms, 100);
    assert_eq!(updated[0].source, KeyframeSource::Manual);
}

#[test]
fn upsert_keyframe_appends_a_new_id() {
    let new_kf = ZoomKeyframe {
        id: "kf_002".into(),
        start_ms: 1000,
        duration_ms: 300,
        target_rect: Rect { x: 0.0, y: 0.0, w: 0.2, h: 0.2 },
        easing: Easing::Linear,
        source: KeyframeSource::Auto,
    };

    let updated = upsert_keyframe(new_kf, sample_keyframes());
    assert_eq!(updated.len(), 2);
    assert_eq!(updated[1].id, "kf_002");
    assert_eq!(updated[1].source, KeyframeSource::Manual);
    assert_eq!(updated[0].source, KeyframeSource::Auto);
}

#[test]
fn upsert_replaces_only_the_first_keyframe_with_the_id() {
    let mut kfs = sample_keyframes();
    kfs.push(kfs[0].clone());
    let mut edited = kfs[0].clone();
    edited.start_ms = 42;
    let updated = upsert_keyframe(edited, kfs);
    assert_eq!(updated.len(), 2);
    assert_eq!(updated[0].start_ms, 42);
    assert_eq!(updated[1].start_ms, 0);
}

#[test]
fn delete_removes_every_keyframe_with_the_id_and_keeps_the_order() {
    let mut kfs = sample_keyframes();
    let mut second = kfs[0].clone();
    second.id = "kf_002".into();
    kfs.push(second);
    kfs.push(kfs[0].clone());
    let mut third = kfs[0].clone();
    third.id = "kf_003".into();
    kfs.push(third);

    let remaining = delete_keyframe(kfs, "kf_001");
    let ids: Vec<&str> = remaining.iter().map(|k| k.id.as_str()).collect();
    assert_eq!(ids, vec!["kf_002", "kf_003"]);
}

#[test]
fn deleting_an_unknown_id_changes_nothing() {
    let remaining = delete_keyframe(sample_keyframes(), "kf_404");
    assert_eq!(remaining.len(), 1);
    assert_eq!(remaining[0].id, "kf_001");
}

#[test]
fn delete_after_adding_a_new_keyframe_restores_the_list() {
    let mut new_kf = sample_keyframes()[0].clone();
    new_kf.id = "kf_009".into();
    let restored = delete_keyframe(upsert_keyframe(new_kf, sample_keyframes()), "kf_009");
    assert_eq!(restored.len(), 1);
    assert_eq!(restored[0].id, "kf_001");
    assert_eq!(restored[0].source, KeyframeSource::Auto);
}

#[test]
fn export_settings_default_to_1080p_h264_at_60_fps_with_automatic_encoder() {
    let s = ExportSettings::default();
    assert_eq!(s.resolution, ExportResolution::P1080);
    assert_eq!(s.fps, 60);
    assert_eq!(s.codec, Codec::H264);
    assert_eq!(s.hw_accel, "auto");
}

#[test]
fn repeating_an_edit_changes_nothing_more() {
    let edit = ZoomKeyframe {
        id: "kf_002".into(),
        start_ms: 900,
        duration_ms: 250,
        target_rect: Rect { x: 0.5, y: 0.5, w: 0.2, h: 0.2 },
        easing: Easing::Linear,
        source: KeyframeSource::Auto,
    };
    let once = upsert_keyframe(edit.clone(), sample_keyframes());
    let twice = upsert_keyframe(edit, once.clone());
    assert_eq!(twice.len(), once.len());
    for (a, b) in once.iter().zip(twice.iter()) {
        assert_eq!((&a.id, a.start_ms, a.duration_ms, a.target_rect, a.easing, a.source),
                   (&b.id, b.start_ms, b.duration_ms, b.target_rect, b.easing, b.source));
    }
}

#[test]
fn deleting_an_id_twice_is_deleting_it_once() {
    let mut kfs = sample_keyframes();
    kfs.push(ZoomKeyframe { id: "kf_009".into(), ..kfs[0].clone() });
    kfs.push(ZoomKeyframe { id: "kf_001".into(), start_ms: 7, ..kfs[0].clone() });
    let once = delete_keyframe(kfs, "kf_001");
    assert_eq!(once.len(), 1);
    assert!(once.iter().all(|k| k.id != "kf_001"));
    assert_eq!(once[0].id, "kf_009");
    let twice = delete_keyframe(once.clone(), "kf_001");
    assert_eq!(twice.len(), once.len());
    assert_eq!(twice[0].id, once[0].id);
}
