use screenzoom::input::{
    escape, format_event_line, input_kind_from_name, read_log, read_log_line, relative_t_ms, split_lines, trim, LogRecord,
    TrackedInput,
};
use screenzoom::zoom::InputEventKind;

#[test]
fn escapes_backslash_and_quote_in_button_debug() {
    assert_eq!(escape("a\\b\"c"), "a\\\\b\\\"c");
}

// The listener renders coordinates with `Display` before formatting: the
// pointer at (12.5, 34.0) arrives as "12.5" and "34".
#[test]
fn formats_mouse_move() {
    let line = format_event_line(
        1_000,
        &TrackedInput::MouseMove { x: "12.5".to_string(), y: "34".to_string() },
        "0",
        "0",
    )
    .unwrap();
    assert_eq!(line, "{\"t_wall_ms\":1000,\"kind\":\"move\",\"x\":12.5,\"y\":34}\n");
}

#[test]
fn formats_button_press_with_last_known_position() {
    let line = format_event_line(2_000, &TrackedInput::ButtonPress("Left".to_string()), "111", "222").unwrap();
    assert_eq!(line, "{\"t_wall_ms\":2000,\"kind\":\"button_press\",\"button\":\"Left\",\"x\":111,\"y\":222}\n");
}

#[test]
fn formats_button_release() {
    let line = format_event_line(3_000, &TrackedInput::ButtonRelease("Right".to_string()), "5", "6").unwrap();
    assert_eq!(line, "{\"t_wall_ms\":3000,\"kind\":\"button_release\",\"button\":\"Right\",\"x\":5,\"y\":6}\n");
}

#[test]
fn ignores_wheel_events() {
    assert!(format_event_line(4_000, &TrackedInput::Other, "0", "0").is_none());
}

#[test]
fn button_names_are_escaped_in_the_log_line() {
    let line = format_event_line(0, &TrackedInput::ButtonPress("Unknown(\"x\")".to_string()), "1", "2").unwrap();
    assert_eq!(line, "{\"t_wall_ms\":0,\"kind\":\"button_press\",\"button\":\"Unknown(\\\"x\\\")\",\"x\":1,\"y\":2}\n");
}

#[test]
fn kind_names_map_back_to_event_kinds() {
    assert_eq!(input_kind_from_name("move"), Some(InputEventKind::Move));
    assert_eq!(input_kind_from_name("button_press"), Some(InputEventKind::ButtonPress));
    assert_eq!(input_kind_from_name("button_release"), Some(InputEventKind::ButtonRelease));
    assert_eq!(input_kind_from_name("unknown_kind"), None);
    assert_eq!(input_kind_from_name("Move"), None);
}

#[test]
fn log_times_become_relative_to_the_recording_start() {
    assert_eq!(relative_t_ms(1_000, 500), 500);
    assert_eq!(relative_t_ms(1_500, 500), 1_000);
    assert_eq!(relative_t_ms(100, 500), 0);
    assert_eq!(relative_t_ms((1u128 << 64) + 7, 0), 7);
}

fn kind_field(line: &str) -> &str {
    let head_end = line.find(",\"kind\":\"").unwrap() + ",\"kind\":\"".len();
    let rest = &line[head_end..];
    &rest[..rest.find('"').unwrap()]
}

#[test]
fn logged_lines_read_back_as_the_kind_they_were_written_with() {
    let moved = format_event_line(10, &TrackedInput::MouseMove { x: "3".to_string(), y: "4".to_string() }, "0", "0");
    let pressed = format_event_line(11, &TrackedInput::ButtonPress("Left".to_string()), "3", "4");
    let released = format_event_line(12, &TrackedInput::ButtonRelease("Left".to_string()), "3", "4");
    assert_eq!(input_kind_from_name(kind_field(&moved.unwrap())), Some(InputEventKind::Move));
    assert_eq!(input_kind_from_name(kind_field(&pressed.unwrap())), Some(InputEventKind::ButtonPress));
    assert_eq!(input_kind_from_name(kind_field(&released.unwrap())), Some(InputEventKind::ButtonRelease));
}

// The reading side of the log: times and kinds. Normalizing the positions
// is done by the program around the library.
#[test]
fn parses_move_and_click_lines_into_relative_normalized_events() {
    let log = "{\"t_wall_ms\":1000,\"kind\":\"move\",\"x\":960,\"y\":540}\n\
               {\"t_wall_ms\":1500,\"kind\":\"button_press\",\"button\":\"Left\",\"x\":960,\"y\":540}\n\
               {\"t_wall_ms\":1600,\"kind\":\"unknown_kind\",\"x\":0,\"y\":0}\n";
    let events = read_log(log, 500).unwrap();
    assert_eq!(events.len(), 2, "la linea de kind desconocido deberia ignorarse");
    assert_eq!(events[0], LogRecord { line: 0, kind: InputEventKind::Move, t_ms: 500 });
    assert_eq!(events[1], LogRecord { line: 1, kind: InputEventKind::ButtonPress, t_ms: 1000 });
}

#[test]
fn blank_lines_are_skipped_and_lines_are_trimmed() {
    let log = "\n   \n\t{\"t_wall_ms\":7,\"kind\":\"button_release\",\"x\":1,\"y\":2} \r\n\n";
    let events = read_log(log, 0).unwrap();
    assert_eq!(events, vec![LogRecord { line: 2, kind: InputEventKind::ButtonRelease, t_ms: 7 }]);
    assert_eq!(read_log("", 0).unwrap(), vec![]);
}

#[test]
fn the_first_bad_line_is_the_error() {
    let log = "{\"t_wall_ms\":1,\"kind\":\"move\",\"y\":2}\n{\"kind\":\"move\",\"x\":1,\"y\":2}\n";
    assert_eq!(read_log(log, 0), Err("evento sin x".to_string()));
    assert_eq!(
        read_log_line("{\"kind\":\"button_press\",\"x\":1,\"y\":2}", 0),
        Err("evento sin t_wall_ms".to_string())
    );
    assert_eq!(read_log_line("{\"kind\":\"move\",\"t_wall_ms\":9,\"x\":1}", 0), Err("evento sin y".to_string()));
    assert!(read_log("not json\n", 0).is_err());
    assert_eq!(read_log_line("{\"kind\":\"wheel\"}", 0), Ok(None));
    assert_eq!(read_log_line("{\"kind\":\"move\",\"t_wall_ms\":9,\"x\":1.5,\"y\":-2}", 4), Ok(Some((InputEventKind::Move, 5))));
}

#[test]
fn lines_and_trimming_follow_std() {
    let lines = split_lines("a\nb\r\n\nc");
    assert_eq!(lines, vec!["a".to_string(), "b\r".to_string(), String::new(), "c".to_string()]);
    assert_eq!(split_lines("x\n"), vec!["x".to_string(), String::new()]);
    for s in ["  a b \t", "\u{a0}x\u{3000}", "", " \n ", "y"] {
        assert_eq!(trim(s), s.trim());
    }
}
