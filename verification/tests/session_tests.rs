use regmsg::server::command_registry::{catalog, simple_command, CommandError, CommandRegistry};
use regmsg::server::response_handler::format_response;
use regmsg::server::session::{extract_command, respond, retry_delay_ms, MAX_MESSAGE_SIZE, MAX_SEND_RETRIES};

fn registry() -> CommandRegistry<dyn regmsg::server::command_registry::CommandHandler> {
    let mut registry = CommandRegistry::new();
    registry.register(
        "ping",
        simple_command("ping", "Replies pong", || Ok("pong".to_string())),
    );
    registry.register(
        "fail",
        simple_command("fail", "Always fails", || Err("it broke".to_string())),
    );
    registry
}

#[test]
fn commands_are_extracted_from_frames() {
    assert_eq!(extract_command(None), Err("Received empty message".to_string()));
    assert_eq!(
        extract_command(Some(&b"listModes".to_vec())),
        Ok("listModes".to_string())
    );
    assert_eq!(
        extract_command(Some(&"écran".as_bytes().to_vec())),
        Ok("écran".to_string())
    );
    let big = vec![b'a'; MAX_MESSAGE_SIZE + 1];
    assert_eq!(
        extract_command(Some(&big)),
        Err("Message too large: 1048577 bytes (max: 1048576)".to_string())
    );
    let exact = vec![b'a'; MAX_MESSAGE_SIZE];
    assert!(extract_command(Some(&exact)).is_ok());
}

#[test]
fn invalid_utf8_frames_are_refused() {
    let e = extract_command(Some(&vec![0xff, 0xfe])).unwrap_err();
    assert!(e.starts_with("Invalid UTF-8 message: "));
    assert!(e.len() > "Invalid UTF-8 message: ".len());
}

#[test]
fn replies_to_frames() {
    let r = registry();
    assert_eq!(respond(&r, Some(&b"ping".to_vec())), "pong");
    assert_eq!(respond(&r, Some(&b"  ping  ".to_vec())), "pong");
    assert_eq!(respond(&r, Some(&b"fail".to_vec())), "Error: it broke");
    assert_eq!(respond(&r, Some(&b"nope".to_vec())), "Error: Unknown command: nope");
    assert_eq!(respond(&r, Some(&b"".to_vec())), "Error: Empty command");
    assert_eq!(respond(&r, None), "Error: Received empty message");
    assert!(respond(&r, Some(&vec![0xc3])).starts_with("Error: Invalid UTF-8 message: "));
}

#[test]
fn responses_to_results() {
    assert_eq!(format_response(Ok("1920x1080".to_string())), "1920x1080");
    assert_eq!(
        format_response(Err(CommandError::ExecutionError("no display".to_string()))),
        "Error: no display"
    );
    assert_eq!(
        format_response(Err(CommandError::InvalidArguments("bad".to_string()))),
        "Error: Invalid arguments: bad"
    );
    assert_eq!(
        format_response(Err(CommandError::UnknownCommand("x".to_string()))),
        "Error: Unknown command: x"
    );
    assert_eq!(format_response(Err(CommandError::EmptyCommand)), "Error: Empty command");
}

#[test]
fn send_retries_wait_longer_each_time() {
    assert_eq!(MAX_SEND_RETRIES, 3);
    assert_eq!(retry_delay_ms(0), Some(100));
    assert_eq!(retry_delay_ms(1), Some(200));
    assert_eq!(retry_delay_ms(2), None);
    assert_eq!(retry_delay_ms(7), None);
}

#[test]
fn catalogs_are_ordered_by_name() {
    let pairs = vec![
        ("setMode".to_string(), "Sets the mode".to_string()),
        ("currentMode".to_string(), "The mode".to_string()),
        ("listModes".to_string(), "The modes".to_string()),
    ];
    assert_eq!(
        catalog(pairs),
        "currentMode: The mode\nlistModes: The modes\nsetMode: Sets the mode"
    );
    assert_eq!(catalog(vec![]), "");
}

#[test]
fn a_registered_command_is_found_and_listed() {
    let r = registry();
    assert_eq!(r.handle("ping").unwrap(), "pong");
    assert_eq!(r.list_commands(), "fail: Always fails\nping: Replies pong");
}
