use regmsg::error::RegmsgError;
use regmsg::screen::backend::{DisplayBackend, DisplayMode, DisplayOutput, ModeParams, RotationParams};
use regmsg::server::command_registry::{
    arg_command, screen_command, screen_setter_command, simple_command, ArgCommand, CommandError,
    CommandHandler, CommandRegistry, SimpleCommand,
};
use regmsg::server::commands::{init_commands, ControllerOps};

/// A display that accepts every change and reports nothing.
struct QuietDisplay;

impl DisplayBackend for QuietDisplay {
    fn list_outputs(&self) -> Result<Vec<DisplayOutput>, RegmsgError> {
        Ok(vec![])
    }

    fn list_modes(&self, _screen: Option<&str>) -> Result<Vec<DisplayMode>, RegmsgError> {
        Ok(vec![])
    }

    fn current_mode(&self, _screen: Option<&str>) -> Result<DisplayMode, RegmsgError> {
        Err(RegmsgError::NotFound("Current mode".to_string()))
    }

    fn current_resolution(&self, _screen: Option<&str>) -> Result<(u32, u32), RegmsgError> {
        Err(RegmsgError::NotFound("Current mode".to_string()))
    }

    fn current_refresh_rate(&self, _screen: Option<&str>) -> Result<u32, RegmsgError> {
        Err(RegmsgError::NotFound("Current mode".to_string()))
    }

    fn current_rotation(&self, _screen: Option<&str>) -> Result<u32, RegmsgError> {
        Ok(0)
    }

    fn set_mode(&self, _screen: Option<&str>, _mode: &ModeParams) -> Result<(), RegmsgError> {
        Ok(())
    }

    fn set_rotation(&self, _screen: Option<&str>, _rotation: &RotationParams) -> Result<(), RegmsgError> {
        Ok(())
    }

    fn set_max_resolution(&self, _screen: Option<&str>, _max_resolution: Option<&str>) -> Result<(), RegmsgError> {
        Ok(())
    }

    fn take_screenshot(&self, _screenshot_dir: &str) -> Result<String, RegmsgError> {
        Ok("/tmp/shot.png".to_string())
    }

    fn map_touchscreen(&self) -> Result<(), RegmsgError> {
        Ok(())
    }

    fn backend_name(&self) -> &'static str {
        "Quiet"
    }
}

#[test]
fn test_commands_registered() {
    let display = QuietDisplay;
    let ops = ControllerOps {
        add: |_i: usize, _g: &str| Ok(()),
        remove: |_g: &str| Ok(()),
        json: || Ok("{}".to_string()),
    };
    let registry = init_commands(&display, &ops);
    let commands = registry.list_commands();
    assert!(commands.contains("listModes"));
    assert!(commands.contains("currentMode"));
    assert!(commands.contains("setMode"));
    assert!(commands.contains("setRotation"));
    assert!(commands.contains("listOutputs"));
    assert!(commands.contains("currentOutput"));
    assert!(commands.contains("currentBackend"));
    assert!(commands.contains("getScreenshot"));
    assert!(commands.contains("mapTouchScreen"));
    assert!(commands.contains("currentResolution"));
    assert!(commands.contains("currentRotation"));
    assert!(commands.contains("currentRefresh"));
    assert!(commands.contains("minToMaxResolution"));
    assert!(commands.contains("setOutput"));
}

#[test]
fn server_tests_test_invalid_rotation() {
    let display = QuietDisplay;
    let ops = ControllerOps {
        add: |_i: usize, _g: &str| Ok(()),
        remove: |_g: &str| Ok(()),
        json: || Ok("{}".to_string()),
    };
    let registry = init_commands(&display, &ops);
    let result = registry.handle("setRotation 45");
    assert!(result.is_err());
    match result {
        Err(CommandError::ExecutionError(_)) => {
            let error_str = result.err().unwrap().message();
            assert!(error_str.contains("Invalid rotation") || error_str.contains("45"));
        }
        _ => panic!("Expected ExecutionError for invalid rotation"),
    }
}

#[test]
fn test_valid_rotation() {
    let display = QuietDisplay;
    let ops = ControllerOps {
        add: |_i: usize, _g: &str| Ok(()),
        remove: |_g: &str| Ok(()),
        json: || Ok("{}".to_string()),
    };
    let registry = init_commands(&display, &ops);
    let valid_rotations = ["0", "90", "180", "270"];
    for rotation in valid_rotations {
        let result = registry.handle(&format!("setRotation {}", rotation));
        if result.is_err() {
            match result.err().unwrap() {
                CommandError::InvalidArguments(_) => {
                    panic!("Valid rotation {} was rejected as invalid argument", rotation);
                }
                _ => {}
            }
        }
    }
}

#[test]
fn test_registry_creation() {
    let registry = CommandRegistry::new();
    assert_eq!(registry.list_commands(), "");
}

#[test]
fn test_registry_handle_empty_command() {
    let registry = CommandRegistry::new();
    let result = registry.handle("");
    assert!(result.is_err());
    match result {
        Err(CommandError::EmptyCommand) => assert!(true),
        _ => assert!(false, "Expected EmptyCommand error"),
    }
}

#[test]
fn test_registry_handle_unknown_command() {
    let registry = CommandRegistry::new();
    let result = registry.handle("unknown_command");
    assert!(result.is_err());
    match result {
        Err(CommandError::UnknownCommand(_)) => assert!(true),
        _ => assert!(false, "Expected UnknownCommand error"),
    }
}

#[test]
fn test_simple_command_handler() {
    let simple_cmd = SimpleCommand {
        description: "test command".to_string(),
        executor: Box::new(|| Ok("success".to_string())),
    };
    let result = simple_cmd.execute(&[]);
    assert!(result.is_ok());
    assert_eq!(result.unwrap(), "success");
}

#[test]
fn test_simple_command_handler_with_error() {
    let simple_cmd = SimpleCommand {
        description: "test command".to_string(),
        executor: Box::new(|| Err("test error".to_string().into())),
    };
    let result = simple_cmd.execute(&[]);
    assert!(result.is_err());
}

#[test]
fn test_screen_command_handler() {
    let screen_cmd = screen_command("test screen command", |_screen| {
        Ok("screen command executed".to_string())
    });
    let result = screen_cmd.execute(&[]);
    assert!(result.is_ok());
    assert_eq!(result.unwrap(), "screen command executed");
    let result = screen_cmd.execute(&["HDMI1"]);
    assert!(result.is_ok());
    assert_eq!(result.unwrap(), "screen command executed");
}

#[test]
fn test_screen_setter_command_handler() {
    let setter_cmd = screen_setter_command("test setter command", |_screen, _value| Ok(()));
    let result = setter_cmd.execute(&["1920x1080"]);
    assert!(result.is_ok());
    assert!(result.unwrap().contains("Set to"));
    let result = setter_cmd.execute(&["1920x1080", "HDMI1"]);
    assert!(result.is_ok());
    assert!(result.unwrap().contains("Set to"));
    let result = setter_cmd.execute(&[]);
    assert!(result.is_err());
}

#[test]
fn test_command_registry_registration_and_execution() {
    let mut registry = CommandRegistry::new();
    registry.register(
        "test_command",
        Box::new(SimpleCommand {
            description: "A test command".to_string(),
            executor: Box::new(|| Ok("test result".to_string())),
        }),
    );
    let result = registry.handle("test_command");
    assert!(result.is_ok());
    assert_eq!(result.unwrap(), "test result");
}

#[test]
fn test_command_registry_command_with_args() {
    let mut registry = CommandRegistry::new();
    registry.register(
        "echo_command",
        screen_command("echo command", |screen_param| match screen_param {
            Some(screen) => Ok(format!("echo: {}", screen)),
            None => Ok("echo: no screen".to_string()),
        }),
    );
    let result = registry.handle("echo_command");
    assert!(result.is_ok());
    assert_eq!(result.unwrap(), "echo: no screen");
    let result = registry.handle("echo_command HDMI1");
    assert!(result.is_ok());
    assert_eq!(result.unwrap(), "echo: HDMI1");
}

#[test]
fn test_list_commands() {
    let mut registry = CommandRegistry::new();
    registry.register(
        "test1",
        Box::new(SimpleCommand {
            description: "First test command".to_string(),
            executor: Box::new(|| Ok("test1 result".to_string())),
        }),
    );
    registry.register(
        "test2",
        Box::new(SimpleCommand {
            description: "Second test command".to_string(),
            executor: Box::new(|| Ok("test2 result".to_string())),
        }),
    );
    let commands_list = registry.list_commands();
    assert!(commands_list.contains("test1: First test command"));
    assert!(commands_list.contains("test2: Second test command"));
}

#[test]
fn test_command_error_display() {
    let invalid_args = CommandError::InvalidArguments("test message".to_string());
    assert!(invalid_args.message().contains("Invalid arguments: test message"));
    let unknown_cmd = CommandError::UnknownCommand("test_command".to_string());
    assert!(unknown_cmd.message().contains("Unknown command: test_command"));
    let exec_error = CommandError::ExecutionError("test error".to_string().into());
    assert!(exec_error.message().contains("Execution error: test error"));
    let empty_cmd = CommandError::EmptyCommand;
    assert!(empty_cmd.message().contains("Empty command"));
}

#[test]
fn test_argument_validation() {
    let mut registry = CommandRegistry::new();
    registry.register(
        "fixed_args_cmd",
        Box::new(ArgCommand {
            name: "fixed_args_cmd".to_string(),
            description: "Command with fixed args".to_string(),
            expected_args: 2,
            executor: Box::new(|_args: &[&str]| Ok(())),
        }),
    );
    let result = registry.handle("fixed_args_cmd only_one_arg");
    assert!(result.is_err());
    match result {
        Err(CommandError::InvalidArguments(msg)) => {
            assert!(msg.contains("expects 2 arguments, got 1"));
        }
        _ => panic!("Expected InvalidArguments error"),
    }
}

#[test]
fn test_simple_command_macro() {
    let handler = simple_command("test_simple", "A simple test command", || {
        Ok("simple result".to_string())
    });
    let result = handler.execute(&[]);
    assert!(result.is_ok());
    assert_eq!(result.unwrap(), "simple result");
    assert_eq!(handler.description(), "A simple test command");
}

#[test]
fn test_arg_command_macro() {
    let handler = arg_command("test_arg", "A test command with args", 1, |args| {
        if args.len() != 1 {
            return Err("Expected 1 argument".to_string().into());
        }
        Ok(())
    });
    let result = handler.execute(&["arg1"]);
    assert!(result.is_ok());
    assert_eq!(handler.description(), "A test command with args");
    let result = handler.execute(&[]);
    if result.is_err() {
        assert!(true);
    } else {
        assert!(true);
    }
}

#[test]
fn test_expected_args_functionality() {
    let simple_cmd = simple_command("simple", "Simple command", || Ok("simple".to_string()));
    assert_eq!(simple_cmd.expected_args(), Some(0));
    let screen_cmd = screen_command("Screen command", |_screen| Ok("screen".to_string()));
    assert_eq!(screen_cmd.expected_args(), None);
    let setter_cmd = screen_setter_command("Setter command", |_screen, _value| Ok(()));
    assert_eq!(setter_cmd.expected_args(), None);
}
