use regmsg::client::{prompt, reply_is_error, request_line, shell_action, shell_step, split_invocation, CliCommand, ShellStep};

fn name(r: ShellStep) -> String {
    match r {
        ShellStep::Skip => "skip".to_string(),
        ShellStep::Exit => "exit".to_string(),
        ShellStep::Help => "help".to_string(),
        ShellStep::Clear => "clear".to_string(),
        ShellStep::Send(c) => format!("send {}", c),
    }
}

fn step(line: &str) -> String {
    name(shell_step(line))
}

#[test]
fn shell_reads_its_own_commands_in_any_case() {
    assert_eq!(step("exit\n"), "exit");
    assert_eq!(step("  EXIT  "), "exit");
    assert_eq!(step("Quit"), "exit");
    assert_eq!(step("q"), "exit");
    assert_eq!(step("HELP"), "help");
    assert_eq!(step("?"), "help");
    assert_eq!(step("h"), "help");
    assert_eq!(step("Clear\n"), "clear");
}

#[test]
fn shell_skips_blank_lines_and_sends_the_rest() {
    assert_eq!(step(""), "skip");
    assert_eq!(step("   \n"), "skip");
    assert_eq!(step("  listModes --screen HDMI-A-1 \n"), "send listModes --screen HDMI-A-1");
    assert_eq!(step("EXITS"), "send EXITS");
}

#[test]
fn error_replies_are_recognized() {
    assert!(reply_is_error("Error: Unknown command: foo"));
    assert!(reply_is_error("Err: x"));
    assert!(!reply_is_error("error: lower case"));
    assert!(!reply_is_error(" Error:"));
    assert!(!reply_is_error("1920x1080@60"));
}

#[test]
fn shell_prompt() {
    assert_eq!(prompt("batocera"), "[batocera]> ");
}

#[test]
fn request_lines() {
    assert_eq!(request_line(&CliCommand::ListModes, None, &vec![]), "listModes");
    assert_eq!(
        request_line(&CliCommand::CurrentMode, Some("HDMI-A-1"), &vec![]),
        "currentMode --screen HDMI-A-1"
    );
    assert_eq!(
        request_line(
            &CliCommand::SetMode("1920x1080@60".to_string()),
            Some("eDP-1"),
            &vec!["a".to_string(), "b".to_string()]
        ),
        "setMode 1920x1080@60 --screen eDP-1 a b"
    );
    assert_eq!(
        request_line(&CliCommand::SetRotation("90".to_string()), None, &vec![]),
        "setRotation 90"
    );
    assert_eq!(
        request_line(&CliCommand::MinToMaxResolution, None, &vec!["x".to_string()]),
        "minToMaxResolution x"
    );
}

#[test]
fn invocations_split_into_command_and_arguments() {
    assert_eq!(split_invocation(vec![]), None);
    assert_eq!(
        split_invocation(vec!["setMode".to_string(), "1920x1080".to_string()]),
        Some(("setMode".to_string(), vec!["1920x1080".to_string()]))
    );
    assert_eq!(
        split_invocation(vec!["listModes".to_string()]),
        Some(("listModes".to_string(), vec![]))
    );
}

#[test]
fn shell_action_decides_on_the_lowercase_form() {
    assert_eq!(name(shell_action("", "")), "skip");
    assert_eq!(name(shell_action("EXIT", "exit")), "exit");
    assert_eq!(name(shell_action("Q", "q")), "exit");
    assert_eq!(name(shell_action("Help", "help")), "help");
    assert_eq!(name(shell_action("?", "?")), "help");
    assert_eq!(name(shell_action("CLEAR", "clear")), "clear");
    assert_eq!(name(shell_action("listModes", "listmodes")), "send listModes");
    assert_eq!(name(shell_action("exit", "other")), "send exit");
}
