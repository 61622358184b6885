use regmsg::screen::kmsdrm::{Connector, DrmMode};
use regmsg::screen::wayland::{SwayInput, SwayMode, SwayOutput};
use regmsg::standalone::wayland::{
    wayland_current_mode, wayland_current_output, wayland_current_refresh,
    wayland_current_resolution, wayland_get_screenshot, wayland_list_modes, wayland_list_outputs,
    wayland_map_touch_screen, wayland_max_limit, wayland_min_to_max_resolution, wayland_set_mode,
    format_refresh, wayland_set_output, wayland_set_rotation, wayland_touchscreen,
};
use regmsg::standalone::{
    drm_current_mode, drm_current_output, drm_current_refresh, drm_current_resolution,
    drm_get_screenshot, drm_list_modes, drm_list_outputs, drm_reads_current, drm_set_mode,
    detect_backend, drm_set_output, drm_set_rotation, drm_to_max_resolution, tool_mode_request,
    ConnectorState, ToolModeRequest,
};

fn mode(width: i32, height: i32, refresh: i32) -> SwayMode {
    SwayMode {
        width,
        height,
        refresh,
        refresh_hz: ((refresh + 500) / 1000) as u32,
    }
}

fn output(name: &str, modes: Vec<SwayMode>, current: Option<SwayMode>, focused: bool) -> SwayOutput {
    SwayOutput {
        name: name.to_string(),
        modes,
        current_mode: current,
        focused,
        transform: None,
    }
}

fn outputs() -> Vec<SwayOutput> {
    vec![
        output(
            "eDP-1",
            vec![mode(1920, 1080, 60000), mode(1280, 720, 59940)],
            Some(mode(1920, 1080, 60000)),
            true,
        ),
        output(
            "HDMI-A-1",
            vec![mode(3840, 2160, 30000), mode(1920, 1080, 60000)],
            Some(mode(3840, 2160, 30000)),
            false,
        ),
        output("DP-1", vec![], None, false),
    ]
}

fn pairs(v: &[(&str, &str)]) -> Vec<(String, String)> {
    v.iter().map(|(a, b)| (a.to_string(), b.to_string())).collect()
}

#[test]
fn tool_lists_modes_by_output() {
    assert_eq!(
        wayland_list_modes(&outputs(), None),
        Ok("1920x1080@60Hz:eDP-1 1920x1080@60Hz\n1280x720@59Hz:eDP-1 1280x720@59Hz\n\
            3840x2160@30Hz:HDMI-A-1 3840x2160@30Hz\n1920x1080@60Hz:HDMI-A-1 1920x1080@60Hz\n"
            .to_string())
    );
    assert_eq!(
        wayland_list_modes(&outputs(), Some("eDP-1")),
        Ok("1920x1080@60Hz:eDP-1 1920x1080@60Hz\n1280x720@59Hz:eDP-1 1280x720@59Hz".to_string())
    );
    assert_eq!(wayland_list_modes(&outputs(), Some("VGA-1")), Ok(String::new()));
    assert_eq!(wayland_list_modes(&vec![], None), Err("No outputs found".to_string()));
}

#[test]
fn tool_lists_outputs() {
    assert_eq!(wayland_list_outputs(&outputs()), "eDP-1\nHDMI-A-1\nDP-1");
    assert_eq!(wayland_list_outputs(&vec![]), "");
}

#[test]
fn tool_current_mode_and_output() {
    assert_eq!(wayland_current_mode(&outputs(), None), "1920x1080@60Hz3840x2160@30Hz");
    assert_eq!(wayland_current_mode(&outputs(), Some("HDMI-A-1")), "3840x2160@30Hz");
    assert_eq!(wayland_current_mode(&outputs(), Some("DP-1")), "No current mode found.");
    assert_eq!(wayland_current_output(&outputs()), Ok("eDP-1HDMI-A-1".to_string()));
    assert_eq!(
        wayland_current_output(&vec![output("DP-1", vec![], None, false)]),
        Err("No current output found.".to_string())
    );
}

#[test]
fn tool_current_resolution_and_refresh_are_spaced_by_position() {
    assert_eq!(wayland_current_resolution(&outputs(), None), "1920x1080\n3840x2160\n");
    assert_eq!(wayland_current_resolution(&outputs(), Some("HDMI-A-1")), "3840x2160");
    assert_eq!(
        wayland_current_resolution(&outputs(), Some("DP-1")),
        "No current resolution found."
    );
    assert_eq!(wayland_current_refresh(&outputs(), None), Ok("60Hz\n30Hz\n".to_string()));
    assert_eq!(wayland_current_refresh(&outputs(), Some("eDP-1")), Ok("60Hz".to_string()));
    assert_eq!(
        wayland_current_refresh(&outputs(), Some("DP-1")),
        Ok("No current refresh rate found.".to_string())
    );
    assert_eq!(wayland_current_refresh(&vec![], None), Err("No outputs found".to_string()));
}

#[test]
fn tool_refresh_below_one_thousand_is_already_in_hz() {
    let os = vec![output("X", vec![mode(640, 480, 75)], Some(mode(640, 480, 75)), true)];
    assert_eq!(wayland_current_mode(&os, None), "640x480@75Hz");
    assert_eq!(wayland_list_modes(&os, None), Ok("640x480@75Hz:X 640x480@75Hz".to_string()));
}

#[test]
fn tool_set_mode_on_named_screen() {
    assert_eq!(
        wayland_set_mode(&outputs(), Some("eDP-1"), 1280, 720, 60),
        Ok(pairs(&[("eDP-1", "output eDP-1 mode 1280x720@60Hz")]))
    );
    assert_eq!(
        wayland_set_mode(&outputs(), Some("eDP-1"), 800, 600, 60),
        Err("Failed to set mode 800x600@60Hz for specified screen".to_string())
    );
    assert_eq!(
        wayland_set_mode(&outputs(), Some("VGA-1"), 800, 600, 60),
        Err("Screen 'VGA-1' not found".to_string())
    );
}

#[test]
fn tool_set_mode_on_all_outputs() {
    assert_eq!(
        wayland_set_mode(&outputs(), None, 1920, 1080, 60),
        Ok(pairs(&[
            ("eDP-1", "output eDP-1 mode 1920x1080@60Hz"),
            ("HDMI-A-1", "output HDMI-A-1 mode 1920x1080@60Hz"),
        ]))
    );
    assert_eq!(wayland_set_mode(&outputs(), None, 800, 600, 60), Ok(vec![]));
}

#[test]
fn tool_set_mode_takes_the_last_output_of_a_name() {
    let os = vec![
        output("A", vec![mode(800, 600, 60000)], None, false),
        output("A", vec![mode(1024, 768, 60000)], None, false),
    ];
    assert_eq!(wayland_set_mode(&os, None, 800, 600, 60), Ok(vec![]));
    assert_eq!(
        wayland_set_mode(&os, Some("A"), 800, 600, 60),
        Err("Failed to set mode 800x600@60Hz for specified screen".to_string())
    );
    assert_eq!(
        wayland_set_mode(&os, Some("A"), 1024, 768, 75),
        Ok(pairs(&[("A", "output A mode 1024x768@75Hz")]))
    );
}

#[test]
fn tool_set_output() {
    assert_eq!(
        wayland_set_output(&outputs(), "DP-1"),
        Ok("output DP-1 enable".to_string())
    );
    assert_eq!(
        wayland_set_output(&outputs(), "VGA-1"),
        Err("Output 'VGA-1' not found".to_string())
    );
}

#[test]
fn tool_set_rotation() {
    assert_eq!(
        wayland_set_rotation(&outputs(), Some("eDP-1"), "90"),
        Ok(pairs(&[("eDP-1", "output eDP-1 transform 90")]))
    );
    assert_eq!(
        wayland_set_rotation(&outputs(), None, "180"),
        Ok(pairs(&[
            ("eDP-1", "output eDP-1 transform 180"),
            ("HDMI-A-1", "output HDMI-A-1 transform 180"),
            ("DP-1", "output DP-1 transform 180"),
        ]))
    );
    assert_eq!(
        wayland_set_rotation(&outputs(), None, "45"),
        Err("Invalid rotation: '45'. Valid options are: [\"0\", \"90\", \"180\", \"270\"]".to_string())
    );
}

#[test]
fn tool_screenshot_target() {
    assert_eq!(
        wayland_get_screenshot(&outputs(), "2024.01.02-03h04.05"),
        Ok((
            "eDP-1".to_string(),
            "/userdata/screenshots/screenshot-2024.01.02-03h04.05.png".to_string()
        ))
    );
    assert_eq!(
        wayland_get_screenshot(&vec![output("DP-1", vec![], None, true)], "t"),
        Err("No active output found".to_string())
    );
}

#[test]
fn tool_touchscreen_mapping() {
    let inputs = vec![
        SwayInput {
            identifier: "1:1:Keyboard".to_string(),
            input_type: "keyboard".to_string(),
        },
        SwayInput {
            identifier: "1234:5678:Touch".to_string(),
            input_type: "touch".to_string(),
        },
    ];
    assert_eq!(wayland_touchscreen(&inputs), Ok("1234:5678:Touch".to_string()));
    assert_eq!(
        wayland_touchscreen(&vec![]),
        Err("No touchscreen device found".to_string())
    );
    assert_eq!(
        wayland_map_touch_screen("1234:5678:Touch", &outputs()),
        Ok((
            "eDP-1".to_string(),
            "input 1234:5678:Touch map_to_output eDP-1".to_string()
        ))
    );
    assert_eq!(
        wayland_map_touch_screen("t", &vec![output("DP-1", vec![], None, false)]),
        Err("No focused output found".to_string())
    );
}

#[test]
fn tool_max_limit_parsing() {
    assert_eq!(wayland_max_limit(None), Ok((1920, 1080)));
    assert_eq!(wayland_max_limit(Some("1280x720")), Ok((1280, 720)));
    assert_eq!(
        wayland_max_limit(Some("1280")),
        Err("Invalid resolution format: '1280'. Expected 'WxH'".to_string())
    );
    assert_eq!(
        wayland_max_limit(Some("1x2x3")),
        Err("Invalid resolution format: '1x2x3'. Expected 'WxH'".to_string())
    );
    assert_eq!(
        wayland_max_limit(Some("abcx720")),
        Err("Failed to parse width: invalid digit found in string".to_string())
    );
    assert_eq!(
        wayland_max_limit(Some("1280x")),
        Err("Failed to parse height: cannot parse integer from empty string".to_string())
    );
    assert_eq!(
        wayland_max_limit(Some("0x720")),
        Err("Resolution dimensions must be positive: 0x720".to_string())
    );
    assert_eq!(
        wayland_max_limit(Some("-5x720")),
        Err("Resolution dimensions must be positive: -5x720".to_string())
    );
}

#[test]
fn tool_min_to_max_resolution() {
    assert_eq!(
        wayland_min_to_max_resolution(&outputs(), Some("HDMI-A-1"), 1920, 1080),
        Some((
            "HDMI-A-1".to_string(),
            "output HDMI-A-1 mode 1920x1080@60Hz".to_string()
        ))
    );
    // The focused output is already within the limit.
    assert_eq!(wayland_min_to_max_resolution(&outputs(), None, 1920, 1080), None);
    // No mode within the limit.
    assert_eq!(
        wayland_min_to_max_resolution(&outputs(), Some("HDMI-A-1"), 640, 480),
        None
    );
    // No such screen, or no current mode.
    assert_eq!(wayland_min_to_max_resolution(&outputs(), Some("VGA-1"), 1920, 1080), None);
    assert_eq!(wayland_min_to_max_resolution(&outputs(), Some("DP-1"), 1920, 1080), None);
}

#[test]
fn tool_min_to_max_resolution_keeps_the_first_of_equal_sizes() {
    let os = vec![output(
        "X",
        vec![mode(1280, 720, 60000), mode(1920, 1080, 60000), mode(1080, 1920, 50000)],
        Some(mode(3840, 2160, 30000)),
        true,
    )];
    assert_eq!(
        wayland_min_to_max_resolution(&os, None, 2000, 2000),
        Some(("X".to_string(), "output X mode 1920x1080@60Hz".to_string()))
    );
}

fn drm_mode(width: u16, height: u16, vrefresh: u32) -> DrmMode {
    DrmMode {
        width,
        height,
        vrefresh,
    }
}

fn connector(interface: &str, connected: bool, modes: Vec<DrmMode>) -> Connector {
    Connector {
        interface: interface.to_string(),
        connected,
        modes,
    }
}

fn connectors() -> Vec<Connector> {
    vec![
        connector("HDMIA", true, vec![drm_mode(1920, 1080, 60), drm_mode(1280, 720, 60)]),
        connector("DP1", false, vec![drm_mode(1024, 768, 60)]),
    ]
}

fn states() -> Vec<ConnectorState> {
    vec![
        ConnectorState {
            interface: "HDMIA".to_string(),
            connected: true,
            current: Some(drm_mode(1920, 1080, 60)),
        },
        ConnectorState {
            interface: "DP1".to_string(),
            connected: false,
            current: None,
        },
        ConnectorState {
            interface: "VGA1".to_string(),
            connected: true,
            current: Some(drm_mode(800, 600, 75)),
        },
    ]
}

#[test]
fn tool_drm_lists() {
    assert_eq!(
        drm_list_modes(&connectors(), None),
        Ok("1920x1080@60:HDMIA 1920x1080@60Hz\n1280x720@60:HDMIA 1280x720@60Hz\n1024x768@60:DP1 1024x768@60Hz"
            .to_string())
    );
    assert_eq!(drm_list_modes(&connectors(), Some("VGA1")), Err("No modes found.".to_string()));
    assert_eq!(drm_list_outputs(&connectors()), Ok("HDMIA\nDP1".to_string()));
    assert_eq!(drm_list_outputs(&vec![]), Err("No outputs found.".to_string()));
}

#[test]
fn tool_drm_current_reports() {
    assert_eq!(drm_current_mode(&states(), None), Ok("1920x1080@60800x600@75".to_string()));
    assert_eq!(drm_current_mode(&states(), Some("VGA1")), Ok("800x600@75".to_string()));
    assert_eq!(
        drm_current_mode(&states(), Some("DP1")),
        Err("No current mode found.".to_string())
    );
    assert_eq!(drm_current_output(&states()), Ok("HDMIAVGA1".to_string()));
    assert_eq!(drm_current_output(&vec![]), Err("No current output found.".to_string()));
    assert_eq!(drm_current_resolution(&states(), None), Ok("1920x1080800x600".to_string()));
    assert_eq!(
        drm_current_resolution(&states(), Some("DP1")),
        Err("No current resolution found.".to_string())
    );
    assert_eq!(drm_current_refresh(&states(), None), Ok("60Hz75Hz".to_string()));
    assert_eq!(
        drm_current_refresh(&vec![], None),
        Err("No current refresh rate found.".to_string())
    );
}

#[test]
fn tool_drm_reads_current_of_chosen_connected_connectors() {
    assert!(drm_reads_current(None, "HDMIA", true));
    assert!(drm_reads_current(Some("HDMIA"), "HDMIA", true));
    assert!(!drm_reads_current(Some("HDMIA"), "DP1", true));
    assert!(!drm_reads_current(None, "DP1", false));
}

#[test]
fn tool_drm_set_mode() {
    assert_eq!(
        drm_set_mode(&connectors(), None, 1920, 1080, 60),
        (vec!["1920x1080@60".to_string()], false)
    );
    assert_eq!(drm_set_mode(&connectors(), None, 1024, 768, 60), (vec![], true));
    assert_eq!(drm_set_mode(&connectors(), Some("DP1"), 1024, 768, 60), (vec![], false));
    let cs = vec![
        connector("HDMIA", true, vec![drm_mode(1920, 1080, 60)]),
        connector("HDMIB", true, vec![drm_mode(1920, 1080, 60)]),
        connector("DP1", true, vec![drm_mode(1280, 720, 60)]),
        connector("DP2", true, vec![drm_mode(1920, 1080, 60)]),
    ];
    assert_eq!(
        drm_set_mode(&cs, None, 1920, 1080, 60),
        (vec!["1920x1080@60".to_string(), "1920x1080@60".to_string()], true)
    );
    assert_eq!(
        drm_set_mode(&cs, Some("DP2"), 1920, 1080, 60),
        (vec!["1920x1080@60".to_string()], false)
    );
}

#[test]
fn tool_drm_operations_without_effect_succeed() {
    assert_eq!(drm_set_output("HDMIA"), Ok(()));
    assert_eq!(drm_set_rotation(None, "90"), Ok(()));
    assert_eq!(drm_get_screenshot("/tmp"), Ok(()));

}

#[test]
fn tool_refresh_text_carries_its_unit() {
    assert_eq!(format_refresh(60000), "60Hz");
    assert_eq!(format_refresh(60), "60Hz");
    assert_eq!(format_refresh(59940), "59Hz");
    assert_eq!(format_refresh(999), "999Hz");
}

#[test]
fn tool_drm_max_resolution_takes_largest_mode_of_connected_connectors() {
    assert_eq!(
        drm_to_max_resolution(&connectors(), None, Some("1920x1080".to_string())),
        Ok(vec!["1920x1080@60".to_string()])
    );
    let cs = vec![
        connector("HDMIA", true, vec![drm_mode(1280, 720, 60), drm_mode(1920, 1080, 50), drm_mode(1920, 1080, 60)]),
        connector("DP1", true, vec![drm_mode(1024, 768, 75)]),
        connector("DP2", true, vec![]),
    ];
    assert_eq!(
        drm_to_max_resolution(&cs, None, None),
        Ok(vec!["1920x1080@50".to_string(), "1024x768@75".to_string()])
    );
    assert_eq!(
        drm_to_max_resolution(&cs, Some("DP1"), None),
        Ok(vec!["1024x768@75".to_string()])
    );
}

#[test]
fn tool_drm_max_resolution_without_usable_connector_fails() {
    assert_eq!(
        drm_to_max_resolution(&vec![], None, None),
        Err("No suitable resolution found".to_string())
    );
    assert_eq!(
        drm_to_max_resolution(&connectors(), Some("DP1"), None),
        Err("No suitable resolution found".to_string())
    );
    let cs = vec![connector("DP2", true, vec![])];
    assert_eq!(
        drm_to_max_resolution(&cs, None, Some("1920x1080".to_string())),
        Err("No suitable resolution found".to_string())
    );
}

#[test]
fn tool_backend_follows_wayland_display() {
    assert_eq!(detect_backend(true), "Wayland");
    assert_eq!(detect_backend(false), "KMS/DRM");
}

#[test]
fn tool_mode_request_reads_max_prefix_and_modes() {
    assert_eq!(
        tool_mode_request("max-1920x1080"),
        Ok(ToolModeRequest::MaxResolution("1920x1080".to_string()))
    );
    assert_eq!(
        tool_mode_request("max-max-640x480"),
        Ok(ToolModeRequest::MaxResolution("640x480".to_string()))
    );
    assert_eq!(tool_mode_request("1920x1080@75"), Ok(ToolModeRequest::Mode(1920, 1080, 75)));
    assert_eq!(tool_mode_request("1280x720"), Ok(ToolModeRequest::Mode(1280, 720, 60)));
}

#[test]
fn tool_mode_request_errors() {
    assert_eq!(
        tool_mode_request("1920"),
        Err("Invalid mode format. Use 'WxH@R' or 'WxH'".to_string())
    );
    assert_eq!(tool_mode_request("axb"), Err("Invalid width".to_string()));
    assert_eq!(tool_mode_request("10xb"), Err("Invalid height".to_string()));
    assert_eq!(tool_mode_request("10x20@r"), Err("Invalid refresh rate".to_string()));
}
