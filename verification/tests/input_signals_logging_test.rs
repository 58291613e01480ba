use godot_bevy::input::{classify_input_event, InputEventKind, MouseButton};
use godot_bevy::logging::{
    append_decimal, console_line, engine_echo, level_marker, short_location, short_location_of,
    EngineEcho, LogLevel,
};
use godot_bevy::signals::{signal_event, variant_to_signal_argument, variant_type_label, OBJECT_VARIANT_TYPE};

#[test]
fn mouse_buttons_from_engine_numbers() {
    assert_eq!(MouseButton::from_button_index(1), MouseButton::Left);
    assert_eq!(MouseButton::from_button_index(2), MouseButton::Right);
    assert_eq!(MouseButton::from_button_index(3), MouseButton::Middle);
    assert_eq!(MouseButton::from_button_index(4), MouseButton::WheelUp);
    assert_eq!(MouseButton::from_button_index(5), MouseButton::WheelDown);
    assert_eq!(MouseButton::from_button_index(6), MouseButton::WheelLeft);
    assert_eq!(MouseButton::from_button_index(7), MouseButton::WheelRight);
    assert_eq!(MouseButton::from_button_index(8), MouseButton::Extra1);
    assert_eq!(MouseButton::from_button_index(9), MouseButton::Extra2);
    assert_eq!(MouseButton::from_button_index(0), MouseButton::Left);
    assert_eq!(MouseButton::from_button_index(42), MouseButton::Left);
}

#[test]
fn input_event_priority() {
    assert_eq!(classify_input_event(true, true, false, false), InputEventKind::Keyboard);
    assert_eq!(classify_input_event(false, true, true, false), InputEventKind::MouseButton);
    assert_eq!(classify_input_event(false, false, true, true), InputEventKind::MouseMotion);
    assert_eq!(classify_input_event(false, false, false, true), InputEventKind::Touch);
    assert_eq!(classify_input_event(false, false, false, false), InputEventKind::Other);
}

#[test]
fn variant_type_labels() {
    assert_eq!(variant_type_label(0), "Nil");
    assert_eq!(variant_type_label(1), "Bool");
    assert_eq!(variant_type_label(2), "Int");
    assert_eq!(variant_type_label(3), "Float");
    assert_eq!(variant_type_label(4), "String");
    assert_eq!(variant_type_label(5), "Vector2");
    assert_eq!(variant_type_label(9), "Vector3");
    assert_eq!(variant_type_label(24), "Object");
    assert_eq!(variant_type_label(6), "Unknown");
}

#[test]
fn signal_arguments_keep_object_ids_only() {
    let a = variant_to_signal_argument(OBJECT_VARIANT_TYPE, "<Node#5>".to_string(), Some(5));
    assert_eq!(a.variant_type, "Object");
    assert_eq!(a.value, "<Node#5>");
    assert_eq!(a.instance_id, Some(5));
    let b = variant_to_signal_argument(2, "7".to_string(), Some(5));
    assert_eq!(b.variant_type, "Int");
    assert_eq!(b.instance_id, None);
}

#[test]
fn signal_events_target_their_origin() {
    let s = signal_event("pressed".to_string(), 12, Vec::new());
    assert_eq!(s.name, "pressed");
    assert_eq!(s.origin, 12);
    assert_eq!(s.target, 12);
    assert!(s.arguments.is_empty());
}

#[test]
fn log_markers() {
    assert_eq!(level_marker(LogLevel::Info, false), "I");
    assert_eq!(level_marker(LogLevel::Error, false), "E");
    assert_eq!(level_marker(LogLevel::Trace, true), "[color=LightGreen]T[/color]");
    assert_eq!(level_marker(LogLevel::Warn, true), "[color=Yellow]W[/color]");
    assert_eq!(level_marker(LogLevel::Error, true), "[color=Salmon]E[/color]");
    assert_eq!(engine_echo(LogLevel::Warn), EngineEcho::Warning);
    assert_eq!(engine_echo(LogLevel::Error), EngineEcho::Error);
    assert_eq!(engine_echo(LogLevel::Debug), EngineEcho::Nowhere);
}

#[test]
fn decimal_notation() {
    for (n, text) in [(0u32, "0"), (7, "7"), (10, "10"), (305, "305"), (u32::MAX, "4294967295")] {
        let mut s = String::from("x");
        append_decimal(&mut s, n);
        assert_eq!(s, format!("x{text}"));
    }
}

#[test]
fn short_location_layout() {
    assert_eq!(short_location(Some("plugins"), "audio.rs", "/", Some(42)), "plugins/audio.rs:42");
    assert_eq!(short_location(None, "main.rs", "/", Some(7)), "main.rs:7");
    assert_eq!(short_location(Some("src"), "lib.rs", "\\", None), "src\\lib.rs:0");
}

#[test]
fn console_line_layout() {
    assert_eq!(
        console_line("12:00:00.000 ", LogLevel::Info, false, "hello", "src/lib.rs:3"),
        "12:00:00.000 I hello @ src/lib.rs:3"
    );
    assert_eq!(
        console_line("", LogLevel::Warn, true, "careful", "a.rs:1"),
        "[color=DimGray][/color][color=Yellow]W[/color] careful [color=DimGray]@ a.rs:1[/color]"
    );
}

#[test]
fn short_location_keeps_the_last_two_components() {
    let parts = |v: &[&str]| v.iter().map(|s| s.to_string()).collect::<Vec<String>>();
    assert_eq!(
        short_location_of(&parts(&["/", "home", "src", "plugins", "audio.rs"]), "/", Some(9)),
        "plugins/audio.rs:9"
    );
    assert_eq!(short_location_of(&parts(&["main.rs"]), "/", Some(1)), "main.rs:1");
    assert_eq!(short_location_of(&parts(&[]), "/", None), ":0");
}
