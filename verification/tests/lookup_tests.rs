use pwned_rs::haveibeenpwned::CreateInstanceError;
use pwned_rs::haveibeenpwned::FormatErrorKind;
use pwned_rs::haveibeenpwned::HaveIBeenPwnedParser;
use pwned_rs::parse::parse_lines;

// The SHA-1 hex digest of the password "password".
const PASSWORD_SHA1: &str = "5baa61e4c9b93f3f0682250b6cf8331b7ee68fd8";

#[test]
fn querying_known_password_returns_stored_count() {
    let lines: Vec<String> = vec![format!("{}:3700000\n", PASSWORD_SHA1)];
    let entries = parse_lines(&lines);
    assert_eq!(entries.len(), 1);
    let mut parser = HaveIBeenPwnedParser::from_file_size(49);
    parser.build_index(&entries);
    assert_eq!(parser.get_usage_count("password"), 3700000);
}

#[test]
fn querying_absent_password_returns_zero() {
    let lines: Vec<String> = vec![format!("{}:3700000\n", PASSWORD_SHA1)];
    let entries = parse_lines(&lines);
    let mut parser = HaveIBeenPwnedParser::from_file_size(49);
    parser.build_index(&entries);
    assert_eq!(parser.get_usage_count("some other password"), 0);
}

#[test]
fn querying_before_building_an_index_returns_zero() {
    let parser = HaveIBeenPwnedParser::from_file_size(49);
    assert_eq!(parser.get_usage_count("password"), 0);
}

#[test]
fn duplicate_hash_keeps_the_last_seen_count() {
    let lines: Vec<String> = vec![
        format!("{}:1\n", PASSWORD_SHA1),
        "aaa:7\n".to_string(),
        format!("{}:42\n", PASSWORD_SHA1.to_uppercase()),
    ];
    let entries = parse_lines(&lines);
    assert_eq!(entries.len(), 3);
    let mut parser = HaveIBeenPwnedParser::from_file_size(0);
    parser.build_index(&entries);
    assert_eq!(parser.get_usage_count("password"), 42);
}

#[test]
fn file_size_is_the_one_captured_at_construction() {
    let parser = HaveIBeenPwnedParser::from_file_size(0);
    assert_eq!(parser.get_file_size(), Some(0));
    let bigger = HaveIBeenPwnedParser::from_file_size(1024);
    assert_eq!(bigger.get_file_size(), Some(1024));
}

#[test]
fn detached_handle_has_no_file_size() {
    let parser = HaveIBeenPwnedParser::detached();
    assert_eq!(parser.get_file_size(), None);
    assert_eq!(parser.get_usage_count("password"), 0);
}

#[test]
fn io_error_message_mentions_an_io_error() {
    let error = CreateInstanceError::Io("No such file or directory (os error 2)".to_string());
    let message = error.message();
    assert!(message.contains("IO error:"));
    assert_eq!(message, "IO error: No such file or directory (os error 2)");
}

#[test]
fn format_error_messages_name_the_fault() {
    assert_eq!(
        FormatErrorKind::NotATextFile.to_string(),
        "not a text file which can be parsed"
    );
    assert_eq!(
        FormatErrorKind::LineFormatNotCorrect.to_string(),
        "format of lines does not match the required format"
    );
    let error = CreateInstanceError::Format(FormatErrorKind::NotATextFile);
    assert_eq!(error.message(), "Format error: not a text file which can be parsed");
}
