use pwned_rs::parse::parse_entry_line;
use pwned_rs::parse::parse_lines;
use pwned_rs::parse::parse_u64;

#[test]
fn single_known_record_parses() {
    let line = "5baa61e4c9b93f3f0682250b6cf8331b7ee68fd8:3700000\n";
    let entry = parse_entry_line(line).expect("a well-formed record must parse");
    assert_eq!(entry.hash, "5baa61e4c9b93f3f0682250b6cf8331b7ee68fd8");
    assert_eq!(entry.occurrences, 3700000);
    assert_eq!(entry.entry_size, line.len() as u64);
    assert_eq!(entry.entry_size, 49);
}

#[test]
fn hash_is_lowercased() {
    let entry = parse_entry_line("5BAA61E4C9B93F3F0682250B6CF8331B7EE68FD8:10\n").unwrap();
    assert_eq!(entry.hash, "5baa61e4c9b93f3f0682250b6cf8331b7ee68fd8");
    let mixed = parse_entry_line("AbCdEf:1\n").unwrap();
    assert_eq!(mixed.hash, "abcdef");
}

#[test]
fn entry_size_counts_all_bytes_before_trimming() {
    let entry = parse_entry_line("abc:5\r\n").unwrap();
    assert_eq!(entry.occurrences, 5);
    assert_eq!(entry.entry_size, 7);
}

#[test]
fn trailing_whitespace_is_trimmed() {
    let entry = parse_entry_line("abc:5  \n").unwrap();
    assert_eq!(entry.hash, "abc");
    assert_eq!(entry.occurrences, 5);
    assert_eq!(entry.entry_size, 8);
}

#[test]
fn line_without_separator_yields_no_entry() {
    assert!(parse_entry_line("aaa\n").is_none());
    assert!(parse_entry_line("\n").is_none());
    assert!(parse_entry_line("   \n").is_none());
}

#[test]
fn non_numeric_count_yields_no_entry() {
    assert!(parse_entry_line("aaa:x\n").is_none());
    assert!(parse_entry_line("aaa:\n").is_none());
    assert!(parse_entry_line("aaa:-1\n").is_none());
    assert!(parse_entry_line("aaa: 5\n").is_none());
}

#[test]
fn empty_hash_text_is_taken_as_is() {
    let entry = parse_entry_line(":5\n").unwrap();
    assert_eq!(entry.hash, "");
    assert_eq!(entry.occurrences, 5);
}

#[test]
fn third_field_is_ignored() {
    let entry = parse_entry_line("abc:12:extra\n").unwrap();
    assert_eq!(entry.hash, "abc");
    assert_eq!(entry.occurrences, 12);
}

#[test]
fn count_bounds_match_u64() {
    let max = parse_entry_line("h:18446744073709551615\n").unwrap();
    assert_eq!(max.occurrences, u64::MAX);
    assert!(parse_entry_line("h:18446744073709551616\n").is_none());
}

#[test]
fn plus_signed_count_parses_like_the_standard_parser() {
    assert_eq!(parse_u64("+7"), "+7".parse::<u64>().ok());
    assert_eq!(parse_u64("+7"), Some(7));
    assert_eq!(parse_u64("007"), Some(7));
    assert_eq!(parse_u64("+"), None);
    assert_eq!(parse_u64("++7"), None);
    assert_eq!(parse_u64(""), None);
}

#[test]
fn empty_file_yields_no_entries() {
    let lines: Vec<String> = Vec::new();
    let entries = parse_lines(&lines);
    assert_eq!(entries.len(), 0);
}

#[test]
fn well_formed_lines_all_parse_and_sizes_account_for_every_byte() {
    let content = "aaa:1\nBBB:2\r\nccc:3\n";
    let lines: Vec<String> = vec!["aaa:1\n".to_string(), "BBB:2\r\n".to_string(), "ccc:3\n".to_string()];
    let entries = parse_lines(&lines);
    assert_eq!(entries.len(), 3);
    let total: u64 = entries.iter().map(|e| e.entry_size).sum();
    assert_eq!(total, content.len() as u64);
    assert_eq!(entries[1].hash, "bbb");
    assert_eq!(entries[1].occurrences, 2);
}

#[test]
fn sequence_stops_at_first_malformed_line() {
    let lines: Vec<String> = vec!["a:1\n".to_string(), "broken\n".to_string(), "c:2\n".to_string()];
    let entries = parse_lines(&lines);
    assert_eq!(entries.len(), 1);
    assert_eq!(entries[0].hash, "a");

    let lines2: Vec<String> = vec!["a:1\n".to_string(), "b:x\n".to_string(), "c:2\n".to_string()];
    let entries2 = parse_lines(&lines2);
    assert_eq!(entries2.len(), 1);
}
