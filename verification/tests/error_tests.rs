use regmsg::error::{RegmsgError, Result};
use std::io;

#[test]
fn error_test_error_creation() {
    let backend_error = RegmsgError::BackendError {
        backend: "Test".to_string(),
        message: "Test error".to_string(),
    };
    assert_eq!(backend_error.message(), "Backend error Test: Test error");
}

#[test]
fn error_test_io_error_conversion() {
    let io_error = io::Error::new(io::ErrorKind::NotFound, "File not found");
    let regmsg_error: RegmsgError = io_error.into();
    match regmsg_error {
        RegmsgError::IoError(_) => (),
        _ => panic!("Expected IoError"),
    }
}

#[test]
fn error_test_result_type() {
    fn returns_result() -> Result<String> {
        Ok("success".to_string())
    }
    assert!(returns_result().is_ok());
    assert_eq!(returns_result().unwrap(), "success");
}

#[test]
fn error_test_all_error_variants() {
    let backend_error = RegmsgError::BackendError {
        backend: "TestBackend".to_string(),
        message: "Test message".to_string(),
    };
    assert!(backend_error.message().contains("TestBackend"));
    assert!(backend_error.message().contains("Test message"));
    let invalid_args_error = RegmsgError::InvalidArguments("Invalid args".to_string());
    assert!(invalid_args_error.message().contains("Invalid arguments:"));
    let conversion_error = RegmsgError::ConversionError("Conversion failed".to_string());
    assert!(conversion_error.message().contains("Conversion error:"));
    let parse_error = RegmsgError::ParseError("Parse failed".to_string());
    assert!(parse_error.message().contains("Parse error:"));
    let not_found_error = RegmsgError::NotFound("Resource".to_string());
    assert!(not_found_error.message().contains("Resource not found:"));
    let system_error = RegmsgError::SystemError("System error".to_string());
    assert!(system_error.message().contains("System error:"));
}

#[test]
fn error_test_parse_int_error_conversion() {
    let parse_error = "not_a_number".parse::<i32>().unwrap_err();
    let regmsg_error: RegmsgError = parse_error.into();
    match regmsg_error {
        RegmsgError::ParseError(_) => (),
        _ => panic!("Expected ParseError from integer parsing"),
    }
}

#[test]
fn error_test_from_utf8_error_conversion() {
    let invalid_utf8 = vec![0, 159, 146, 150];
    let utf8_error = String::from_utf8(invalid_utf8).unwrap_err();
    let regmsg_error: RegmsgError = utf8_error.into();
    match regmsg_error {
        RegmsgError::ConversionError(_) => (),
        _ => panic!("Expected ConversionError from UTF-8 conversion"),
    }
}

#[test]
fn error_test_chrono_error_conversion() {
    let result = "invalid".parse::<chrono::DateTime<chrono::Utc>>();
    if let Err(chrono_error) = result {
        let regmsg_error: RegmsgError = chrono_error.into();
        match regmsg_error {
            RegmsgError::ParseError(_) => (),
            _ => panic!("Expected ParseError from chrono conversion"),
        }
    }
}

#[test]
fn error_test_toml_ser_error_conversion() {
    let result = toml::to_string(&std::f64::NAN);
    if let Err(toml_error) = result {
        let regmsg_error: RegmsgError = toml_error.into();
        match regmsg_error {
            RegmsgError::SystemError(_) => (),
            _ => panic!("Expected SystemError from TOML serialization"),
        }
    }
}

#[test]
fn error_test_toml_de_error_conversion() {
    let invalid_toml = "invalid toml [";
    let result: std::result::Result<toml::Value, toml::de::Error> = toml::from_str(invalid_toml);
    if let Err(toml_error) = result {
        let regmsg_error: RegmsgError = toml_error.into();
        match regmsg_error {
            RegmsgError::SystemError(_) => (),
            _ => panic!("Expected SystemError from TOML deserialization"),
        }
    }
}

#[test]
fn error_test_error_propagation() {
    fn operation_that_fails() -> Result<String> {
        Err(RegmsgError::NotFound("Item not found".to_string()))
    }
    let result = operation_that_fails();
    assert!(result.is_err());
    match result {
        Err(RegmsgError::NotFound(msg)) => {
            assert_eq!(msg, "Item not found");
        }
        _ => panic!("Expected NotFound error"),
    }
}

#[test]
fn error_test_nested_error_handling() {
    fn parse_number(input: &str) -> Result<i32> {
        match input.parse::<i32>() {
            Ok(num) => Ok(num),
            Err(e) => Err(RegmsgError::from(e)),
        }
    }
    let result = parse_number("not_a_number");
    assert!(result.is_err());
    match result {
        Err(RegmsgError::ParseError(_)) => (),
        _ => panic!("Expected ParseError"),
    }
}

#[test]
fn error_test_error_formatting() {
    let error_cases = vec![
        (
            RegmsgError::BackendError { backend: "KMS".to_string(), message: "Failed".to_string() },
            "Backend error KMS: Failed",
        ),
        (RegmsgError::InvalidArguments("Bad input".to_string()), "Invalid arguments: Bad input"),
        (RegmsgError::ConversionError("Failed".to_string()), "Conversion error: Failed"),
        (RegmsgError::ParseError("Syntax error".to_string()), "Parse error: Syntax error"),
        (RegmsgError::NotFound("Resource".to_string()), "Resource not found: Resource"),
        (RegmsgError::SystemError("General error".to_string()), "System error: General error"),
    ];
    for (error, expected) in error_cases {
        assert_eq!(error.message(), expected);
    }
}

#[test]
fn error_test_io_error_kinds() {
    let kinds = [
        (io::ErrorKind::NotFound, "not found"),
        (io::ErrorKind::PermissionDenied, "denied"),
        (io::ErrorKind::ConnectionRefused, "refused"),
        (io::ErrorKind::AlreadyExists, "exists"),
    ];
    for (kind, _expected_in_msg) in kinds.iter() {
        let io_error = io::Error::new(*kind, "test message");
        let regmsg_error: RegmsgError = io_error.into();
        match regmsg_error {
            RegmsgError::IoError(_) => (),
            _ => panic!("Expected IoError for kind {:?}", kind),
        }
    }
}

#[test]
fn utils_tests_test_error_creation() {
    let backend_error = RegmsgError::BackendError {
        backend: "Test".to_string(),
        message: "Test error".to_string(),
    };
    assert_eq!(backend_error.message(), "Backend error Test: Test error");
}

#[test]
fn utils_tests_test_io_error_conversion() {
    let io_error = io::Error::new(io::ErrorKind::NotFound, "File not found");
    let regmsg_error: RegmsgError = io_error.into();
    match regmsg_error {
        RegmsgError::IoError(_) => (),
        _ => panic!("Expected IoError"),
    }
}

#[test]
fn utils_tests_test_result_type() {
    fn returns_result() -> Result<String> {
        Ok("success".to_string())
    }
    assert!(returns_result().is_ok());
    assert_eq!(returns_result().unwrap(), "success");
}

#[test]
fn utils_tests_test_all_error_variants() {
    let backend_error = RegmsgError::BackendError {
        backend: "TestBackend".to_string(),
        message: "Test message".to_string(),
    };
    assert!(backend_error.message().contains("TestBackend"));
    assert!(backend_error.message().contains("Test message"));
    let invalid_args_error = RegmsgError::InvalidArguments("Invalid args".to_string());
    assert!(invalid_args_error.message().contains("Invalid arguments:"));
    let conversion_error = RegmsgError::ConversionError("Conversion failed".to_string());
    assert!(conversion_error.message().contains("Conversion error:"));
    let parse_error = RegmsgError::ParseError("Parse failed".to_string());
    assert!(parse_error.message().contains("Parse error:"));
    let not_found_error = RegmsgError::NotFound("Resource".to_string());
    assert!(not_found_error.message().contains("Resource not found:"));
    let system_error = RegmsgError::SystemError("System error".to_string());
    assert!(system_error.message().contains("System error:"));
}

#[test]
fn utils_tests_test_parse_int_error_conversion() {
    let parse_error = "not_a_number".parse::<i32>().unwrap_err();
    let regmsg_error: RegmsgError = parse_error.into();
    match regmsg_error {
        RegmsgError::ParseError(_) => (),
        _ => panic!("Expected ParseError from integer parsing"),
    }
}

#[test]
fn utils_tests_test_from_utf8_error_conversion() {
    let invalid_utf8 = vec![0, 159, 146, 150];
    let utf8_error = String::from_utf8(invalid_utf8).unwrap_err();
    let regmsg_error: RegmsgError = utf8_error.into();
    match regmsg_error {
        RegmsgError::ConversionError(_) => (),
        _ => panic!("Expected ConversionError from UTF-8 conversion"),
    }
}

#[test]
fn utils_tests_test_chrono_error_conversion() {
    let result = "invalid".parse::<chrono::DateTime<chrono::Utc>>();
    if let Err(chrono_error) = result {
        let regmsg_error: RegmsgError = chrono_error.into();
        match regmsg_error {
            RegmsgError::ParseError(_) => (),
            _ => panic!("Expected ParseError from chrono conversion"),
        }
    }
}

#[test]
fn utils_tests_test_toml_ser_error_conversion() {
    let result = toml::to_string(&std::f64::NAN);
    if let Err(toml_error) = result {
        let regmsg_error: RegmsgError = toml_error.into();
        match regmsg_error {
            RegmsgError::SystemError(_) => (),
            _ => panic!("Expected SystemError from TOML serialization"),
        }
    }
}

#[test]
fn utils_tests_test_toml_de_error_conversion() {
    let invalid_toml = "invalid toml [";
    let result: std::result::Result<toml::Value, toml::de::Error> = toml::from_str(invalid_toml);
    if let Err(toml_error) = result {
        let regmsg_error: RegmsgError = toml_error.into();
        match regmsg_error {
            RegmsgError::SystemError(_) => (),
            _ => panic!("Expected SystemError from TOML deserialization"),
        }
    }
}

#[test]
fn utils_tests_test_error_propagation() {
    fn operation_that_fails() -> Result<String> {
        Err(RegmsgError::NotFound("Item not found".to_string()))
    }
    let result = operation_that_fails();
    assert!(result.is_err());
    match result {
        Err(RegmsgError::NotFound(msg)) => {
            assert_eq!(msg, "Item not found");
        }
        _ => panic!("Expected NotFound error"),
    }
}

#[test]
fn utils_tests_test_nested_error_handling() {
    fn parse_number(input: &str) -> Result<i32> {
        match input.parse::<i32>() {
            Ok(num) => Ok(num),
            Err(e) => Err(RegmsgError::from(e)),
        }
    }
    let result = parse_number("not_a_number");
    assert!(result.is_err());
    match result {
        Err(RegmsgError::ParseError(_)) => (),
        _ => panic!("Expected ParseError"),
    }
}

#[test]
fn utils_tests_test_error_formatting() {
    let error_cases = vec![
        (
            RegmsgError::BackendError { backend: "KMS".to_string(), message: "Failed".to_string() },
            "Backend error KMS: Failed",
        ),
        (RegmsgError::InvalidArguments("Bad input".to_string()), "Invalid arguments: Bad input"),
        (RegmsgError::ConversionError("Failed".to_string()), "Conversion error: Failed"),
        (RegmsgError::ParseError("Syntax error".to_string()), "Parse error: Syntax error"),
        (RegmsgError::NotFound("Resource".to_string()), "Resource not found: Resource"),
        (RegmsgError::SystemError("General error".to_string()), "System error: General error"),
    ];
    for (error, expected) in error_cases {
        assert_eq!(error.message(), expected);
    }
}

#[test]
fn utils_tests_test_io_error_kinds() {
    let kinds = [
        (io::ErrorKind::NotFound, "not found"),
        (io::ErrorKind::PermissionDenied, "denied"),
        (io::ErrorKind::ConnectionRefused, "refused"),
        (io::ErrorKind::AlreadyExists, "exists"),
    ];
    for (kind, _expected_in_msg) in kinds.iter() {
        let io_error = io::Error::new(*kind, "test message");
        let regmsg_error: RegmsgError = io_error.into();
        match regmsg_error {
            RegmsgError::IoError(_) => (),
            _ => panic!("Expected IoError for kind {:?}", kind),
        }
    }
}

#[test]
fn test_error_source_chaining() {
    let io_error = io::Error::new(io::ErrorKind::NotFound, "File not found");
    let regmsg_error: RegmsgError = io_error.into();
    match regmsg_error {
        RegmsgError::IoError(source) => {
            assert!(std::error::Error::source(&source).is_none());
        }
        _ => panic!("Expected IoError"),
    }
}

#[test]
fn test_custom_error_creation() {
    let complex_message = "This is a complex error message with \"quotes\" and \n newlines";
    let backend_error = RegmsgError::BackendError {
        backend: "ComplexBackend".to_string(),
        message: complex_message.to_string(),
    };
    let formatted = backend_error.message();
    assert!(formatted.contains("ComplexBackend"));
    assert!(formatted.contains(complex_message));
}

#[test]
fn test_error_debug_output() {
    let error = RegmsgError::NotFound("test_resource".to_string());
    let debug_output = format!("{:?}", error);
    assert!(debug_output.contains("NotFound"));
    assert!(debug_output.contains("test_resource"));
}

#[test]
fn test_error_composition() {
    fn layer1() -> Result<String> {
        Err(RegmsgError::ParseError("layer1 error".to_string()))
    }
    fn layer2() -> Result<String> {
        match layer1() {
            Ok(value) => Ok(value),
            Err(RegmsgError::ParseError(msg)) => {
                Err(RegmsgError::SystemError(format!("layer2 wrapping: {}", msg)))
            }
            Err(e) => Err(e),
        }
    }
    let result = layer2();
    assert!(result.is_err());
    match result {
        Err(RegmsgError::SystemError(msg)) => {
            assert!(msg.contains("layer2 wrapping:"));
            assert!(msg.contains("layer1 error"));
        }
        _ => panic!("Expected SystemError wrapping ParseError"),
    }
}

#[test]
fn test_all_from_implementations() {
    let io_error: RegmsgError = std::io::Error::new(std::io::ErrorKind::Other, "test").into();
    assert!(matches!(io_error, RegmsgError::IoError(_)));
    let parse_error: RegmsgError = "not_a_number".parse::<i32>().unwrap_err().into();
    assert!(matches!(parse_error, RegmsgError::ParseError(_)));
    let utf8_error: RegmsgError = String::from_utf8(vec![0, 159, 146, 150]).unwrap_err().into();
    assert!(matches!(utf8_error, RegmsgError::ConversionError(_)));
    let chrono_error: RegmsgError =
        "invalid".parse::<chrono::DateTime<chrono::Utc>>().unwrap_err().into();
    assert!(matches!(chrono_error, RegmsgError::ParseError(_)));
    let toml_ser_error: RegmsgError = toml::to_string(&std::f64::NAN).unwrap_err().into();
    assert!(matches!(toml_ser_error, RegmsgError::SystemError(_)));
    let toml_de_error: RegmsgError = toml::from_str::<toml::Value>("invalid [").unwrap_err().into();
    assert!(matches!(toml_de_error, RegmsgError::SystemError(_)));
}

#[test]
fn test_edge_cases() {
    let empty_error = RegmsgError::InvalidArguments("".to_string());
    assert_eq!(empty_error.message(), "Invalid arguments: ");
    let long_message = "A".repeat(10000);
    let long_error = RegmsgError::SystemError(long_message.clone());
    assert!(long_error.message().contains(&long_message));
    let special_chars = r#"Special chars: \n\t\r\"'"#;
    let special_error = RegmsgError::BackendError {
        backend: "Test".to_string(),
        message: special_chars.to_string(),
    };
    assert!(special_error.message().contains(special_chars));
}

#[test]
fn test_error_conversion_performance() {
    let start = std::time::Instant::now();
    for _ in 0..1000 {
        let io_error = io::Error::new(io::ErrorKind::NotFound, "test");
        let _regmsg_error: RegmsgError = io_error.into();
    }
    let duration = start.elapsed();
    assert!(duration.as_millis() < 1000, "Error conversion took too long");
}

#[test]
fn test_module_integration() {
    let error = RegmsgError::BackendError {
        backend: "IntegrationTest".to_string(),
        message: "Testing module integration".to_string(),
    };
    let result: Result<()> = Err(error);
    assert!(result.is_err());
    match result {
        Err(RegmsgError::BackendError { backend, message }) => {
            assert_eq!(backend, "IntegrationTest");
            assert_eq!(message, "Testing module integration");
        }
        _ => panic!("Expected BackendError"),
    }
}

#[test]
fn test_result_type_alias() {
    fn process_data(success: bool) -> Result<String> {
        if success {
            Ok("Processed successfully".to_string())
        } else {
            Err(RegmsgError::SystemError("Processing failed".to_string()))
        }
    }
    let success_result = process_data(true);
    assert!(success_result.is_ok());
    assert_eq!(success_result.unwrap(), "Processed successfully");
    let failure_result = process_data(false);
    assert!(failure_result.is_err());
    match failure_result {
        Err(RegmsgError::SystemError(msg)) => {
            assert_eq!(msg, "Processing failed");
        }
        _ => panic!("Expected SystemError"),
    }
}

#[test]
fn cloned_io_error_becomes_system_error() {
    let e: RegmsgError = io::Error::new(io::ErrorKind::NotFound, "gone").into();
    match e.clone() {
        RegmsgError::SystemError(m) => assert_eq!(m, "I/O Error"),
        _ => panic!("Expected SystemError"),
    }
    let e2 = RegmsgError::NotFound("x".to_string());
    match e2.clone() {
        RegmsgError::NotFound(m) => assert_eq!(m, "x"),
        _ => panic!("Expected NotFound"),
    }
}

#[test]
fn io_error_message_starts_with_its_kind() {
    let e: RegmsgError = io::Error::new(io::ErrorKind::NotFound, "gone").into();
    assert_eq!(e.message(), "I/O error: gone");
}
