use regmsg::error::RegmsgError;
use regmsg::screen::backend::{DisplayMode, DisplayOutput, ModeParams, RotationParams};
use regmsg::screen::{
    active_output_name, format_modes, format_output_names, mode_report, mode_request, parse_mode,
    refresh_report, resolution_report, rotation_request, trim_start_matches, BackendKind,
    ModeRequest, ScreenService,
};

fn dmode(width: u32, height: u32, refresh_rate: u32) -> DisplayMode {
    DisplayMode {
        width,
        height,
        refresh_rate,
        name: format!("{}x{}@{}Hz", width, height, refresh_rate),
    }
}

fn doutput(name: &str, connected: bool, current: Option<DisplayMode>) -> DisplayOutput {
    DisplayOutput {
        name: name.to_string(),
        modes: vec![],
        current_mode: current,
        is_connected: connected,
        rotation: 0,
    }
}

#[test]
fn mode_lists_have_one_line_per_mode() {
    assert_eq!(
        format_modes(&vec![dmode(1920, 1080, 60), dmode(1280, 720, 50)]),
        "1920x1080@60:1920x1080@60Hz 1920x1080@60Hz\n1280x720@50:1280x720@50Hz 1280x720@50Hz"
    );
    assert_eq!(format_modes(&vec![]), "");
}

#[test]
fn output_names_one_per_line() {
    assert_eq!(
        format_output_names(&vec![doutput("HDMI-A-1", true, None), doutput("DP-1", false, None)]),
        "HDMI-A-1\nDP-1"
    );
    assert_eq!(format_output_names(&vec![]), "");
}

#[test]
fn the_active_output_is_connected_with_a_current_mode() {
    let outs = vec![
        doutput("DP-1", false, Some(dmode(800, 600, 60))),
        doutput("HDMI-A-1", true, None),
        doutput("eDP-1", true, Some(dmode(1920, 1080, 60))),
        doutput("HDMI-A-2", true, Some(dmode(1920, 1080, 60))),
    ];
    assert_eq!(active_output_name(&outs), "eDP-1");
    assert_eq!(active_output_name(&vec![]), "No active output");
}

#[test]
fn prefixes_are_trimmed_repeatedly() {
    assert_eq!(trim_start_matches("max-1920x1080", "max-"), "1920x1080");
    assert_eq!(trim_start_matches("max-max-1x1", "max-"), "1x1");
    assert_eq!(trim_start_matches("1920x1080", "max-"), "1920x1080");
    assert_eq!(trim_start_matches("max-", "max-"), "");
}

#[test]
fn mode_requests() {
    match mode_request("max-1280x720").unwrap() {
        ModeRequest::MaxResolution(m) => assert_eq!(m, "1280x720"),
        other => panic!("unexpected {:?}", other),
    }
    match mode_request("1920x1080@75").unwrap() {
        ModeRequest::Mode(p) => assert_eq!(
            p,
            ModeParams {
                width: 1920,
                height: 1080,
                refresh_rate: 75
            }
        ),
        other => panic!("unexpected {:?}", other),
    }
    match mode_request("1920x1080").unwrap() {
        ModeRequest::Mode(p) => assert_eq!(p.refresh_rate, 60),
        other => panic!("unexpected {:?}", other),
    }
    match mode_request("1920") {
        Err(RegmsgError::InvalidArguments(m)) => {
            assert_eq!(m, "Invalid mode format. Use 'WxH@R' or 'WxH'")
        }
        other => panic!("unexpected {:?}", other),
    }
}

#[test]
fn mode_parse_errors_name_the_part() {
    match parse_mode("axb") {
        Err(RegmsgError::ParseError(m)) => assert_eq!(m, "Invalid width"),
        other => panic!("unexpected {:?}", other),
    }
    match parse_mode("1x") {
        Err(RegmsgError::ParseError(m)) => assert_eq!(m, "Invalid height"),
        other => panic!("unexpected {:?}", other),
    }
    match parse_mode("1x2@r") {
        Err(RegmsgError::ParseError(m)) => assert_eq!(m, "Invalid refresh rate"),
        other => panic!("unexpected {:?}", other),
    }
    let m = parse_mode("-1x+2@3").unwrap();
    assert_eq!((m.width, m.height, m.vrefresh), (-1, 2, 3));
}

#[test]
fn rotation_requests() {
    assert_eq!(rotation_request("180").unwrap(), RotationParams { rotation: 180 });
    assert_eq!(rotation_request("0").unwrap(), RotationParams { rotation: 0 });
    match rotation_request("45") {
        Err(RegmsgError::InvalidArguments(m)) => {
            assert_eq!(m, "Rotation must be one of: 0, 90, 180, 270")
        }
        other => panic!("unexpected {:?}", other),
    }
    match rotation_request("ninety") {
        Err(RegmsgError::InvalidArguments(m)) => {
            assert_eq!(m, "Invalid rotation: 'ninety'. Must be a number")
        }
        other => panic!("unexpected {:?}", other),
    }
}

#[test]
fn current_value_reports() {
    assert_eq!(mode_report(1920, 1080, 60), "1920x1080@60");
    assert_eq!(resolution_report(3840, 2160), "3840x2160");
    assert_eq!(refresh_report(144), "144Hz");
    assert_eq!(mode_report(0, 0, 0), "0x0@0");
}

#[test]
fn the_backend_follows_the_sway_socket() {
    assert_eq!(ScreenService::default_backend(true, false), (BackendKind::Wayland, true));
    assert_eq!(ScreenService::default_backend(true, true), (BackendKind::Wayland, false));
    assert_eq!(ScreenService::default_backend(false, false), (BackendKind::Drm, false));
    assert_eq!(ScreenService::default_backend(false, true), (BackendKind::Drm, false));
}

#[test]
fn a_reported_mode_parses_back() {
    for (w, h, f) in [(1920u32, 1080u32, 60u32), (0, 0, 0), (2147483647, 1, 144)] {
        let m = parse_mode(&mode_report(w, h, f)).unwrap();
        assert_eq!((m.width as u32, m.height as u32, m.vrefresh as u32), (w, h, f));
    }
    assert!(parse_mode(&mode_report(2147483648, 1, 60)).is_err());
}
