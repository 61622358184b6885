use std::cell::RefCell;

use regmsg::error::RegmsgError;
use regmsg::screen::backend::{DisplayBackend, DisplayMode, DisplayOutput, ModeParams, RotationParams};
use regmsg::server::command_registry::CommandError;
use regmsg::server::commands::{init_commands, ControllerOps};

/// A display with one 1920x1080@60 screen named HDMI-A-1, which records the
/// changes asked of it.
struct FixedDisplay {
    changes: RefCell<Vec<String>>,
}

fn mode() -> DisplayMode {
    DisplayMode {
        width: 1920,
        height: 1080,
        refresh_rate: 60,
        name: "1920x1080@60Hz".to_string(),
    }
}

impl DisplayBackend for FixedDisplay {
    fn list_outputs(&self) -> Result<Vec<DisplayOutput>, RegmsgError> {
        Ok(vec![DisplayOutput {
            name: "HDMI-A-1".to_string(),
            modes: vec![mode()],
            current_mode: Some(mode()),
            is_connected: true,
            rotation: 0,
        }])
    }

    fn list_modes(&self, screen: Option<&str>) -> Result<Vec<DisplayMode>, RegmsgError> {
        match screen {
            Some(s) if s != "HDMI-A-1" => Ok(vec![]),
            _ => Ok(vec![mode()]),
        }
    }

    fn current_mode(&self, _screen: Option<&str>) -> Result<DisplayMode, RegmsgError> {
        Ok(mode())
    }

    fn current_resolution(&self, _screen: Option<&str>) -> Result<(u32, u32), RegmsgError> {
        Ok((1920, 1080))
    }

    fn current_refresh_rate(&self, _screen: Option<&str>) -> Result<u32, RegmsgError> {
        Ok(60)
    }

    fn current_rotation(&self, _screen: Option<&str>) -> Result<u32, RegmsgError> {
        Ok(90)
    }

    fn set_mode(&self, screen: Option<&str>, mode: &ModeParams) -> Result<(), RegmsgError> {
        self.changes.borrow_mut().push(format!(
            "mode {:?} {}x{}@{}",
            screen, mode.width, mode.height, mode.refresh_rate
        ));
        Ok(())
    }

    fn set_rotation(&self, screen: Option<&str>, rotation: &RotationParams) -> Result<(), RegmsgError> {
        self.changes
            .borrow_mut()
            .push(format!("rotation {:?} {}", screen, rotation.rotation));
        Ok(())
    }

    fn set_max_resolution(&self, screen: Option<&str>, max: Option<&str>) -> Result<(), RegmsgError> {
        self.changes
            .borrow_mut()
            .push(format!("max {:?} {:?}", screen, max));
        Ok(())
    }

    fn take_screenshot(&self, _dir: &str) -> Result<String, RegmsgError> {
        Err(RegmsgError::SystemError("grim is not installed or unavailable".to_string()))
    }

    fn map_touchscreen(&self) -> Result<(), RegmsgError> {
        Ok(())
    }

    fn backend_name(&self) -> &'static str {
        "Fixed"
    }
}

fn display() -> FixedDisplay {
    FixedDisplay {
        changes: RefCell::new(vec![]),
    }
}

fn reply(result: Result<String, CommandError>) -> String {
    match result {
        Ok(s) => s,
        Err(e) => format!("Err {}", e.message()),
    }
}

#[test]
fn daemon_queries_reply_with_reports() {
    let d = display();
    let ops = ControllerOps {
        add: |_i: usize, _g: &str| Ok(()),
        remove: |_g: &str| Ok(()),
        json: || Ok("{}".to_string()),
    };
    let r = init_commands(&d, &ops);
    assert_eq!(reply(r.handle("listModes")), "1920x1080@60:1920x1080@60Hz 1920x1080@60Hz");
    assert_eq!(reply(r.handle("listModes DP-1")), "");
    assert_eq!(reply(r.handle("listOutputs")), "HDMI-A-1");
    assert_eq!(reply(r.handle("currentOutput")), "HDMI-A-1");
    assert_eq!(reply(r.handle("currentMode")), "1920x1080@60");
    assert_eq!(reply(r.handle("currentResolution HDMI-A-1")), "1920x1080");
    assert_eq!(reply(r.handle("currentRefresh")), "60Hz");
    assert_eq!(reply(r.handle("currentRotation")), "90");
    assert_eq!(reply(r.handle("currentBackend")), "Fixed");
    assert_eq!(reply(r.handle("mapTouchScreen")), "Touchscreen mapped");
    assert_eq!(
        reply(r.handle("getScreenshot")),
        "Err Execution error: System error: grim is not installed or unavailable"
    );
    assert_eq!(reply(r.handle("getController")), "No controllers configured");
}

#[test]
fn daemon_setters_hand_on_their_values() {
    let d = display();
    let ops = ControllerOps {
        add: |_i: usize, _g: &str| Ok(()),
        remove: |_g: &str| Ok(()),
        json: || Ok("{\"0\":{}}".to_string()),
    };
    let r = init_commands(&d, &ops);
    assert_eq!(reply(r.handle("setMode 1280x720@75")), "Set to 1280x720@75");
    assert_eq!(reply(r.handle("setMode 1280x720 HDMI-A-1")), "Set to 1280x720");
    assert_eq!(reply(r.handle("setMode max-1920x1080")), "Set to max-1920x1080");
    assert_eq!(reply(r.handle("setRotation 180 HDMI-A-1")), "Set to 180");
    assert_eq!(reply(r.handle("minToMaxResolution")), "Resolution set to maximum");
    assert_eq!(
        reply(r.handle("setOutput 800x600")),
        "setOutput executed successfully"
    );
    assert_eq!(reply(r.handle("getController")), "{\"0\":{}}");
    assert_eq!(
        d.changes.borrow().clone(),
        vec![
            "mode None 1280x720@75".to_string(),
            "mode Some(\"HDMI-A-1\") 1280x720@60".to_string(),
            "max None Some(\"1920x1080\")".to_string(),
            "rotation Some(\"HDMI-A-1\") 180".to_string(),
            "max None Some(\"1920x1080\")".to_string(),
            "mode None 800x600@60".to_string(),
        ]
    );
}

#[test]
fn daemon_refuses_bad_values_before_the_display() {
    let d = display();
    let ops = ControllerOps {
        add: |_i: usize, _g: &str| Ok(()),
        remove: |_g: &str| Ok(()),
        json: || Ok("{}".to_string()),
    };
    let r = init_commands(&d, &ops);
    assert_eq!(
        reply(r.handle("setRotation 45")),
        "Err Execution error: Invalid rotation: '45'. Valid options are: 0, 90, 180, 270"
    );
    assert_eq!(
        reply(r.handle("setMode 1920")),
        "Err Execution error: Invalid arguments: Invalid mode format. Use 'WxH@R' or 'WxH'"
    );
    assert_eq!(
        reply(r.handle("setMode axb")),
        "Err Execution error: Parse error: Invalid width"
    );
    assert_eq!(reply(r.handle("setMode")), "Err Invalid arguments: Missing required argument");
    assert_eq!(
        reply(r.handle("currentBackend extra")),
        "Err Invalid arguments: currentBackend expects 0 arguments, got 1"
    );
    assert_eq!(reply(r.handle("frobnicate")), "Err Unknown command: frobnicate");
    assert_eq!(reply(r.handle("   ")), "Err Empty command");
    assert!(d.changes.borrow().is_empty());
}

#[test]
fn daemon_controller_commands() {
    let added: RefCell<Vec<(usize, String)>> = RefCell::new(vec![]);
    let removed: RefCell<Vec<String>> = RefCell::new(vec![]);
    let d = display();
    let ops = ControllerOps {
        add: |i: usize, g: &str| {
            added.borrow_mut().push((i, g.to_string()));
            if i >= 8 {
                Err("Maximum number of controllers (8) reached. Cannot add more.".to_string())
            } else {
                Ok(())
            }
        },
        remove: |g: &str| {
            removed.borrow_mut().push(g.to_string());
            Ok(())
        },
        json: || Err("locked".to_string()),
    };
    let r = init_commands(&d, &ops);
    assert_eq!(reply(r.handle("addController 2 abc")), "addController executed successfully");
    assert_eq!(
        reply(r.handle("addController 9 abc")),
        "Err Execution error: Maximum number of controllers (8) reached. Cannot add more."
    );
    assert_eq!(
        reply(r.handle("addController x abc")),
        "Err Execution error: Invalid index: x. Index must be a positive integer."
    );
    assert_eq!(
        reply(r.handle("addController -1 abc")),
        "Err Execution error: Invalid index: -1. Index must be a positive integer."
    );
    assert_eq!(
        reply(r.handle("removeController abc")),
        "removeController executed successfully"
    );
    assert_eq!(
        reply(r.handle("addController 1")),
        "Err Invalid arguments: addController expects 2 arguments, got 1"
    );
    assert_eq!(reply(r.handle("getController")), "Err Execution error: locked");
    assert_eq!(
        added.borrow().clone(),
        vec![(2, "abc".to_string()), (9, "abc".to_string())]
    );
    assert_eq!(removed.borrow().clone(), vec!["abc".to_string()]);
}
