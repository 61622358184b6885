use regmsg::error::RegmsgError;
use regmsg::screen::backend::{ModeParams, RotationParams};
use regmsg::screen::wayland::{
    connection_error, convert_mode, convert_output, current_mode_of, focused_output,
    format_refresh, list_modes_of, list_outputs_of, max_resolution_command, parse_max_resolution,
    rotation_commands, rotation_of, screenshot_output, screenshot_path, set_mode_commands,
    touch_map_command, touchscreen_id, transform_rotation, wayland_error, SwayInput, SwayMode,
    SwayOutput, WaylandBackend,
};

fn mode(width: i32, height: i32, refresh: i32, refresh_hz: u32) -> SwayMode {
    SwayMode {
        width,
        height,
        refresh,
        refresh_hz,
    }
}

fn output(
    name: &str,
    modes: Vec<SwayMode>,
    current: Option<SwayMode>,
    focused: bool,
    transform: Option<&str>,
) -> SwayOutput {
    SwayOutput {
        name: name.to_string(),
        modes,
        current_mode: current,
        focused,
        transform: transform.map(|t| t.to_string()),
    }
}

fn outputs() -> Vec<SwayOutput> {
    vec![
        output(
            "eDP-1",
            vec![mode(1920, 1080, 60000, 60), mode(1280, 720, 59940, 60)],
            Some(mode(1920, 1080, 60000, 60)),
            true,
            Some("normal"),
        ),
        output(
            "HDMI-A-1",
            vec![mode(3840, 2160, 30000, 30), mode(1920, 1080, 60000, 60)],
            Some(mode(3840, 2160, 30000, 30)),
            false,
            Some("90"),
        ),
        output("DP-1", vec![], None, false, None),
    ]
}

fn backend_message(e: &RegmsgError) -> Option<String> {
    match e {
        RegmsgError::BackendError { backend, message } if backend == "Wayland" => {
            Some(message.clone())
        }
        _ => None,
    }
}

#[test]
fn wayland_backend_name_is_wayland() {
    assert_eq!(WaylandBackend::new().backend_name(), "Wayland");
}

#[test]
fn wayland_errors_name_the_backend() {
    assert_eq!(
        backend_message(&wayland_error("boom".to_string())),
        Some("boom".to_string())
    );
    assert_eq!(
        backend_message(&connection_error("no socket")),
        Some("Failed to connect to Wayland/Sway: no socket".to_string())
    );
}

#[test]
fn refresh_rates_in_millihertz_are_divided() {
    assert_eq!(format_refresh(60000), "60");
    assert_eq!(format_refresh(59940), "59");
    assert_eq!(format_refresh(1000), "1");
    assert_eq!(format_refresh(999), "999");
    assert_eq!(format_refresh(60), "60");
    assert_eq!(format_refresh(-5), "-5");
}

#[test]
fn transforms_are_read_as_degrees() {
    assert_eq!(transform_rotation(&Some("90".to_string())), 90);
    assert_eq!(transform_rotation(&Some("90°".to_string())), 90);
    assert_eq!(transform_rotation(&Some("rotated-180".to_string())), 180);
    assert_eq!(transform_rotation(&Some("270°".to_string())), 270);
    assert_eq!(transform_rotation(&Some("normal".to_string())), 0);
    assert_eq!(transform_rotation(&Some("flipped-90".to_string())), 0);
    assert_eq!(transform_rotation(&None), 0);
}

#[test]
fn sway_modes_convert_with_rounded_rates() {
    let d = convert_mode(&mode(1280, 720, 59940, 60));
    assert_eq!(d.width, 1280);
    assert_eq!(d.height, 720);
    assert_eq!(d.refresh_rate, 60);
    assert_eq!(d.name, "1280x720@60Hz");
}

#[test]
fn sway_outputs_convert() {
    let d = convert_output(&outputs()[1]);
    assert_eq!(d.name, "HDMI-A-1");
    assert_eq!(d.modes.len(), 2);
    assert_eq!(d.modes[0].name, "3840x2160@30Hz");
    assert!(d.is_connected);
    assert_eq!(d.rotation, 90);
    assert_eq!(d.current_mode.unwrap().width, 3840);
    let none = convert_output(&outputs()[2]);
    assert!(none.current_mode.is_none());
    assert_eq!(none.rotation, 0);
}

#[test]
fn modes_of_selected_outputs() {
    let all = list_modes_of(&outputs(), None);
    let names: Vec<String> = all.iter().map(|m| m.name.clone()).collect();
    assert_eq!(
        names,
        vec!["1920x1080@60Hz", "1280x720@60Hz", "3840x2160@30Hz", "1920x1080@60Hz"]
    );
    assert_eq!(list_modes_of(&outputs(), Some("HDMI-A-1")).len(), 2);
    assert_eq!(list_modes_of(&outputs(), Some("VGA-1")).len(), 0);
    let outs = list_outputs_of(&outputs());
    assert_eq!(outs.len(), 3);
    assert_eq!(outs[2].name, "DP-1");
}

#[test]
fn current_mode_of_first_selected_output_with_one() {
    assert_eq!(current_mode_of(&outputs(), None).unwrap().width, 1920);
    assert_eq!(current_mode_of(&outputs(), Some("HDMI-A-1")).unwrap().height, 2160);
    match current_mode_of(&outputs(), Some("DP-1")) {
        Err(RegmsgError::NotFound(m)) => assert_eq!(m, "Current mode"),
        other => panic!("unexpected {:?}", other),
    }
}

#[test]
fn rotation_of_first_selected_output() {
    assert_eq!(rotation_of(&outputs(), None), 0);
    assert_eq!(rotation_of(&outputs(), Some("HDMI-A-1")), 90);
    assert_eq!(rotation_of(&outputs(), Some("VGA-1")), 0);
}

#[test]
fn set_mode_commands_for_a_named_screen() {
    let p = ModeParams {
        width: 1280,
        height: 720,
        refresh_rate: 60,
    };
    assert_eq!(
        set_mode_commands(&outputs(), Some("eDP-1"), &p).unwrap(),
        vec!["output eDP-1 mode 1280x720@60Hz".to_string()]
    );
    match set_mode_commands(&outputs(), Some("HDMI-A-1"), &p) {
        Err(e) => assert_eq!(
            backend_message(&e),
            Some("Failed to set mode 1280x720@60Hz for specified screen".to_string())
        ),
        Ok(c) => panic!("unexpected {:?}", c),
    }
    match set_mode_commands(&outputs(), Some("VGA-1"), &p) {
        Err(RegmsgError::NotFound(m)) => assert_eq!(m, "Screen 'VGA-1' not found"),
        other => panic!("unexpected {:?}", other),
    }
}

#[test]
fn set_mode_commands_for_every_output() {
    let p = ModeParams {
        width: 1920,
        height: 1080,
        refresh_rate: 60,
    };
    assert_eq!(
        set_mode_commands(&outputs(), None, &p).unwrap(),
        vec![
            "output eDP-1 mode 1920x1080@60Hz".to_string(),
            "output HDMI-A-1 mode 1920x1080@60Hz".to_string()
        ]
    );
    let twice = vec![
        output("A", vec![mode(1920, 1080, 60000, 60)], None, false, None),
        output("A", vec![], None, false, None),
    ];
    assert!(set_mode_commands(&twice, None, &p).unwrap().is_empty());
}

#[test]
fn rotation_commands_for_selected_outputs() {
    let r = RotationParams { rotation: 270 };
    assert_eq!(
        rotation_commands(&outputs(), Some("DP-1"), &r).unwrap(),
        vec!["output DP-1 transform 270".to_string()]
    );
    assert_eq!(rotation_commands(&outputs(), None, &r).unwrap().len(), 3);
    match rotation_commands(&outputs(), None, &RotationParams { rotation: 45 }) {
        Err(RegmsgError::InvalidArguments(m)) => {
            assert_eq!(m, "Rotation must be one of: 0, 90, 180, 270")
        }
        other => panic!("unexpected {:?}", other),
    }
}

#[test]
fn max_resolution_limits() {
    assert_eq!(parse_max_resolution(None).unwrap(), (1920, 1080));
    assert_eq!(parse_max_resolution(Some("1280x720")).unwrap(), (1280, 720));
    match parse_max_resolution(Some("1280")) {
        Err(RegmsgError::InvalidArguments(m)) => {
            assert_eq!(m, "Invalid resolution format: '1280'. Expected 'WxH'")
        }
        other => panic!("unexpected {:?}", other),
    }
    match parse_max_resolution(Some("-1x720")) {
        Err(RegmsgError::ParseError(m)) => {
            assert_eq!(m, "Failed to parse width: invalid digit found in string")
        }
        other => panic!("unexpected {:?}", other),
    }
    match parse_max_resolution(Some("1280x99999999999")) {
        Err(RegmsgError::ParseError(m)) => {
            assert_eq!(m, "Failed to parse height: number too large to fit in target type")
        }
        other => panic!("unexpected {:?}", other),
    }
    match parse_max_resolution(Some("1280x0")) {
        Err(RegmsgError::InvalidArguments(m)) => {
            assert_eq!(m, "Resolution dimensions must be positive: 1280x0")
        }
        other => panic!("unexpected {:?}", other),
    }
}

#[test]
fn max_resolution_picks_the_largest_mode_within_the_limit() {
    assert_eq!(
        max_resolution_command(&outputs(), Some("HDMI-A-1"), 1920, 1080),
        Some("output HDMI-A-1 mode 1920x1080@60Hz".to_string())
    );
    assert_eq!(max_resolution_command(&outputs(), None, 1920, 1080), None);
    assert_eq!(max_resolution_command(&outputs(), Some("HDMI-A-1"), 800, 600), None);
    assert_eq!(max_resolution_command(&outputs(), Some("DP-1"), 800, 600), None);
}

#[test]
fn max_resolution_takes_the_last_of_equal_sizes() {
    let os = vec![output(
        "X",
        vec![mode(1920, 1080, 60000, 60), mode(1080, 1920, 50000, 50), mode(1280, 720, 60000, 60)],
        Some(mode(3840, 2160, 30000, 30)),
        true,
        None,
    )];
    assert_eq!(
        max_resolution_command(&os, None, 2000, 2000),
        Some("output X mode 1080x1920@50Hz".to_string())
    );
}

#[test]
fn screenshot_targets_the_first_active_output() {
    assert_eq!(screenshot_output(&outputs()).unwrap(), "eDP-1");
    match screenshot_output(&vec![output("DP-1", vec![], None, true, None)]) {
        Err(RegmsgError::NotFound(m)) => assert_eq!(m, "No active output found"),
        other => panic!("unexpected {:?}", other),
    }
    assert_eq!(
        screenshot_path("/userdata/screenshots", "2024.01.02-03h04.05"),
        "/userdata/screenshots/screenshot-2024.01.02-03h04.05.png"
    );
}

#[test]
fn touchscreen_is_mapped_to_the_focused_output() {
    let inputs = vec![
        SwayInput {
            identifier: "1:1:Mouse".to_string(),
            input_type: "pointer".to_string(),
        },
        SwayInput {
            identifier: "7:7:Touch".to_string(),
            input_type: "touch".to_string(),
        },
    ];
    assert_eq!(touchscreen_id(&inputs).unwrap(), "7:7:Touch");
    match touchscreen_id(&vec![]) {
        Err(RegmsgError::NotFound(m)) => assert_eq!(m, "No touchscreen device found"),
        other => panic!("unexpected {:?}", other),
    }
    assert_eq!(focused_output(&outputs()).unwrap(), "eDP-1");
    match focused_output(&vec![]) {
        Err(RegmsgError::NotFound(m)) => assert_eq!(m, "No focused output found"),
        other => panic!("unexpected {:?}", other),
    }
    assert_eq!(
        touch_map_command("7:7:Touch", "eDP-1"),
        "input 7:7:Touch map_to_output eDP-1"
    );
}
