use screenzoom::capture::{
    ensure_idle, take_recording,
    finish_take, monitor_dto, monitor_info, serde_json_meta, take_duration_ms, take_file_names, window_extent,
    window_info, window_list_position, window_not_found, CaptureError, RawTakeInfo,
};

#[test]
fn a_session_without_frames_is_an_error() {
    assert_eq!(finish_take(1920, 1080, 60, None, Some(5)), Err(CaptureError::NoFramesCaptured));
}

#[test]
fn a_take_stops_at_its_start_when_no_stop_was_recorded() {
    let info = finish_take(1920, 1080, 60, Some(1_000), None).unwrap();
    assert_eq!(info.recording_started_wall_ms, 1_000);
    assert_eq!(info.recording_stopped_wall_ms, 1_000);
    let info = finish_take(1280, 720, 30, Some(1_000), Some(4_500)).unwrap();
    assert_eq!((info.width, info.height, info.fps), (1280, 720, 30));
    assert_eq!(info.recording_stopped_wall_ms, 4_500);
}

#[test]
fn take_duration_is_stop_minus_start_and_never_negative() {
    let mut info = RawTakeInfo {
        width: 1,
        height: 1,
        fps: 60,
        recording_started_wall_ms: 1_000,
        recording_stopped_wall_ms: 61_000,
    };
    assert_eq!(take_duration_ms(&info), 60_000);
    info.recording_stopped_wall_ms = 10;
    assert_eq!(take_duration_ms(&info), 0);
}

#[test]
fn monitors_are_numbered_from_one_and_named_when_unnamed() {
    let m = monitor_info(0, Some("DELL U2720Q".to_string()), 3840, 2160);
    assert_eq!((m.index, m.name.as_str(), m.width, m.height), (1, "DELL U2720Q", 3840, 2160));
    let m = monitor_info(1, None, 1920, 1080);
    assert_eq!((m.index, m.name.as_str()), (2, "Monitor 2"));
    let d = monitor_dto(m);
    assert_eq!((d.index, d.name.as_str(), d.width, d.height), (2, "Monitor 2", 1920, 1080));
}

#[test]
fn windows_are_numbered_from_one_and_named_when_untitled() {
    let w = window_info(9, None);
    assert_eq!((w.index, w.title.as_str()), (10, "Ventana 10"));
    let w = window_info(0, Some("Editor".to_string()));
    assert_eq!((w.index, w.title.as_str()), (1, "Editor"));
}

#[test]
fn window_indices_start_at_one() {
    assert_eq!(window_list_position(3), Ok(2));
    assert_eq!(window_list_position(1), Ok(0));
    let err = window_list_position(0).unwrap_err();
    assert_eq!(err, CaptureError::WindowInfo("el indice de ventana empieza en 1".to_string()));
    assert_eq!(err.message(), "no se pudo leer/encontrar la ventana: el indice de ventana empieza en 1");
}

#[test]
fn missing_window_error_names_the_index() {
    assert_eq!(window_not_found(7), CaptureError::WindowInfo("no se encontro la ventana con indice 7".to_string()));
}

#[test]
fn window_extents_are_at_least_one_pixel() {
    assert_eq!(window_extent(800), 800);
    assert_eq!(window_extent(0), 1);
    assert_eq!(window_extent(-20), 1);
}

#[test]
fn capture_error_messages() {
    assert_eq!(CaptureError::NoPrimaryMonitor("x".into()).message(), "no se encontro el monitor primario: x");
    assert_eq!(CaptureError::MonitorInfo("y".into()).message(), "no se pudo leer la geometria del monitor: y");
    assert_eq!(CaptureError::StartFailed("z".into()).message(), "no se pudo iniciar la captura de pantalla: z");
    assert_eq!(CaptureError::StopFailed("w".into()).message(), "no se pudo detener la captura de pantalla: w");
    assert_eq!(CaptureError::NoFramesCaptured.message(), "la sesion de captura termino sin recibir ni un frame");
}

#[test]
fn take_files_are_named_after_the_stamp() {
    let (video, log) = take_file_names(1_723_629_600_123);
    assert_eq!(video, "take_1723629600123.mp4");
    assert_eq!(log, "take_1723629600123.input.jsonl");
}

#[test]
fn capture_metadata_is_a_small_json_object() {
    let meta = serde_json_meta(1_000, 61_000, 1920, 1080, 60);
    assert_eq!(
        meta,
        "{\n  \"recording_started_wall_ms\": 1000,\n  \"recording_stopped_wall_ms\": 61000,\n  \"width\": 1920,\n  \"height\": 1080,\n  \"fps\": 60\n}\n"
    );
}

#[test]
fn one_recording_at_a_time() {
    let mut slot: Option<&str> = None;
    assert_eq!(ensure_idle(&slot), Ok(()));
    assert_eq!(take_recording(&mut slot), Err("no hay ninguna grabacion en curso".to_string()));
    slot = Some("session");
    assert_eq!(ensure_idle(&slot), Err("ya hay una grabacion en curso".to_string()));
    assert_eq!(take_recording(&mut slot), Ok("session"));
    assert_eq!(slot, None);
    assert_eq!(take_recording(&mut slot), Err("no hay ninguna grabacion en curso".to_string()));
}
