use maze::config::{
    parse_keycode, parse_log_level, toggle_camera_look_mode, ascii_lowercase_chars, Controls, ControlsConfig, Key,
    LogLevel, LookMode,
};

fn controls_config(names: [&str; 8]) -> ControlsConfig {
    ControlsConfig {
        move_forward: names[0].to_string(),
        move_backward: names[1].to_string(),
        move_left: names[2].to_string(),
        move_right: names[3].to_string(),
        rotate_left: names[4].to_string(),
        rotate_right: names[5].to_string(),
        look_hold: names[6].to_string(),
        look_mode_toggle: names[7].to_string(),
    }
}

#[test]
fn parse_keycode_accepts_every_spelling() {
    assert_eq!(parse_keycode("w"), Ok(Key::KeyW));
    assert_eq!(parse_keycode("KeyA"), Ok(Key::KeyA));
    assert_eq!(parse_keycode("key_s"), Ok(Key::KeyS));
    assert_eq!(parse_keycode("D"), Ok(Key::KeyD));
    assert_eq!(parse_keycode("q"), Ok(Key::KeyQ));
    assert_eq!(parse_keycode("E"), Ok(Key::KeyE));
    assert_eq!(parse_keycode("m"), Ok(Key::KeyM));
    assert_eq!(parse_keycode("Tab"), Ok(Key::Tab));
    assert_eq!(parse_keycode("ArrowUp"), Ok(Key::ArrowUp));
    assert_eq!(parse_keycode("arrow_down"), Ok(Key::ArrowDown));
    assert_eq!(parse_keycode("left"), Ok(Key::ArrowLeft));
    assert_eq!(parse_keycode("RIGHT"), Ok(Key::ArrowRight));
    assert_eq!(parse_keycode("PageUp"), Ok(Key::PageUp));
    assert_eq!(parse_keycode("page_down"), Ok(Key::PageDown));
}

#[test]
fn parse_keycode_ignores_surrounding_white_space() {
    assert_eq!(parse_keycode("  W\t"), Ok(Key::KeyW));
    assert_eq!(parse_keycode("\n tab \u{a0}"), Ok(Key::Tab));
}

#[test]
fn parse_keycode_rejects_unknown_keys() {
    assert_eq!(
        parse_keycode(" X "),
        Err("Unsupported key ' X '. Use W/A/S/D, Q/E, Tab, M, Arrow keys, or PageUp/PageDown.".to_string())
    );
    assert!(parse_keycode("").is_err());
    assert!(parse_keycode("k ey_w").is_err());
}

#[test]
fn lowercase_touches_only_ascii_capitals() {
    assert_eq!(ascii_lowercase_chars("AbZ_9É"), vec!['a', 'b', 'z', '_', '9', 'É']);
}

#[test]
fn controls_from_config_reads_every_action() {
    let c = Controls::from_config(&controls_config(["W", "S", "A", "D", "Q", "E", "Tab", "M"])).unwrap();
    assert_eq!(
        c,
        Controls {
            move_forward: Key::KeyW,
            move_backward: Key::KeyS,
            move_left: Key::KeyA,
            move_right: Key::KeyD,
            rotate_left: Key::KeyQ,
            rotate_right: Key::KeyE,
            look_hold: Key::Tab,
            look_mode_toggle: Key::KeyM,
        }
    );
}

#[test]
fn controls_from_config_reports_the_first_bad_name() {
    let r = Controls::from_config(&controls_config(["W", "S", "nope", "D", "Q", "E", "also bad", "M"]));
    assert_eq!(
        r,
        Err("Unsupported key 'nope'. Use W/A/S/D, Q/E, Tab, M, Arrow keys, or PageUp/PageDown.".to_string())
    );
}

#[test]
fn log_levels() {
    assert_eq!(parse_log_level("off"), Some(LogLevel::Error));
    assert_eq!(parse_log_level("Error"), Some(LogLevel::Error));
    assert_eq!(parse_log_level(" warn "), Some(LogLevel::Warn));
    assert_eq!(parse_log_level("INFO"), Some(LogLevel::Info));
    assert_eq!(parse_log_level("debug"), Some(LogLevel::Debug));
    assert_eq!(parse_log_level("trace"), Some(LogLevel::Trace));
    assert_eq!(parse_log_level("verbose"), None);
}

#[test]
fn look_mode_toggles_on_key_press() {
    assert_eq!(toggle_camera_look_mode(LookMode::Relative, true), LookMode::Absolute);
    assert_eq!(toggle_camera_look_mode(LookMode::Absolute, true), LookMode::Relative);
    assert_eq!(toggle_camera_look_mode(LookMode::Absolute, false), LookMode::Absolute);
}
