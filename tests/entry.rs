use fivewsdb::codec::{deserialize, parse_records};
use fivewsdb::entry::{matches_folded, FiveWsEntry, LogEntry};

fn sample() -> FiveWsEntry {
    FiveWsEntry::new(
        "ingi",
        "Access Denied",
        "2020-12-14T15:43:32",
        "System::Login",
        "Username or password was incorrect",
    )
}

fn sample_log() -> LogEntry {
    LogEntry::new(
        "name",
        "Access Denied",
        "2020-12-14T15:43:32",
        "System::Login",
        "Username or password was incorrect",
    )
}

#[test]
fn test_format() {
    let entry = FiveWsEntry::new("ingi", "logged in", "2020-12-14T15:43:32", "", "");
    assert_eq!(entry.to_string(), "ingi|logged in|2020-12-14T15:43:32||");

    let entry = sample();
    assert_eq!(
        entry.to_string(),
        "ingi|Access Denied|2020-12-14T15:43:32|System::Login|Username or password was incorrect"
    );

    let entry = FiveWsEntry::new("", "", "", "", "");
    assert_eq!(entry.to_string(), "||||");

    let entry = FiveWsEntry::new("", "", "", "", "Why");
    assert_eq!(entry.to_string(), "||||Why");
}

#[test]
fn test_like_who() {
    let entry = sample();
    assert_eq!(true, entry.like("who", "ingi"));
}

#[test]
fn test_like_what() {
    let entry = sample();
    assert_eq!(true, entry.like("what", "access denied"));
}

#[test]
fn test_like_when() {
    let entry = sample();
    assert_eq!(true, entry.like("when", "2020-12-14"));
}

#[test]
fn test_like_where() {
    let entry = sample();
    assert_eq!(true, entry.like("where", "System"));
    assert_eq!(true, entry.like("where", "Login"));
    assert_eq!(false, entry.like("where", "syste::login"));
}

#[test]
fn test_like_why() {
    let entry = sample();
    assert_eq!(true, entry.like("why", "username"));
    assert_eq!(true, entry.like("why", "password"));
    assert_eq!(true, entry.like("why", "Username or password"));
    assert_eq!(false, entry.like("why", "Usename or password was incorrect"));
}

#[test]
fn entry_test_format() {
    let entry = LogEntry::new("name", "logged in", "2020-12-14T15:43:32", "", "");
    assert_eq!(entry.to_string(), "name|logged in|2020-12-14T15:43:32||");

    let entry = sample_log();
    assert_eq!(
        entry.to_string(),
        "name|Access Denied|2020-12-14T15:43:32|System::Login|Username or password was incorrect"
    );

    let entry = LogEntry::new("", "", "", "", "");
    assert_eq!(entry.to_string(), "||||");

    let entry = LogEntry::new("", "", "", "", "Why");
    assert_eq!(entry.to_string(), "||||Why");
}

#[test]
fn entry_test_like_who() {
    let entry = sample_log();
    assert_eq!(true, entry.like("who", "name"));
}

#[test]
fn entry_test_like_what() {
    let entry = sample_log();
    assert_eq!(true, entry.like("what", "access denied"));
}

#[test]
fn entry_test_like_when() {
    let entry = sample_log();
    assert_eq!(true, entry.like("when", "2020-12-14"));
}

#[test]
fn entry_test_like_where() {
    let entry = sample_log();
    assert_eq!(true, entry.like("where", "System"));
    assert_eq!(true, entry.like("where", "Login"));
    assert_eq!(false, entry.like("where", "syste::login"));
}

#[test]
fn entry_test_like_why() {
    let entry = sample_log();
    assert_eq!(true, entry.like("why", "username"));
    assert_eq!(true, entry.like("why", "password"));
    assert_eq!(true, entry.like("why", "Username or password"));
    assert_eq!(false, entry.like("why", "Usename or password was incorrect"));
}

#[test]
fn like_unknown_field_never_matches() {
    let entry = sample();
    assert!(!entry.like("how", "ingi"));
    assert!(!entry.like("", ""));
    assert!(!entry.like("WHO", "ingi"));
}

#[test]
fn like_folds_both_sides() {
    let entry = sample();
    assert!(entry.like("who", "INGI"));
    assert!(entry.like("what", "DENIED"));
    assert!(!entry.like("what", "granted"));
}

#[test]
fn field_lookup_by_name() {
    let entry = sample();
    assert_eq!(entry.field("who").unwrap().as_str(), "ingi");
    assert_eq!(entry.field("where").unwrap().as_str(), "System::Login");
    assert!(entry.field("whom").is_none());
}

#[test]
fn from_parts_in_field_order() {
    let entry = FiveWsEntry::from(vec!["a", "b", "c", "d", "e"]);
    assert_eq!(entry.to_string(), "a|b|c|d|e");
    let log = LogEntry::from(vec!["a", "b", "c", "d", "e"]);
    assert_eq!(log.where_, "d");
    assert_eq!(log.to_entry().to_string(), "a|b|c|d|e");
}

#[test]
fn getters_return_fields() {
    let entry = sample();
    assert_eq!(entry.who(), "ingi");
    assert_eq!(entry.what(), "Access Denied");
    assert_eq!(entry.when(), "2020-12-14T15:43:32");
    assert_eq!(entry.where_(), "System::Login");
    assert_eq!(entry.why(), "Username or password was incorrect");
    let log = entry.to_log_entry();
    assert_eq!(log.why, "Username or password was incorrect");
}

#[test]
fn round_trip_of_text_form() {
    let entry = sample();
    let back = deserialize(&entry.to_string()).unwrap();
    assert_eq!(back.to_string(), entry.to_string());
    assert_eq!(back.who(), "ingi");
    assert_eq!(back.why(), "Username or password was incorrect");
    let empty = FiveWsEntry::new("", "", "", "", "");
    let back = deserialize(&empty.to_string()).unwrap();
    assert_eq!(back.to_string(), "||||");
}

#[test]
fn deserialize_needs_exactly_five_fields() {
    assert!(deserialize("a|b|c|d").is_none());
    assert!(deserialize("a|b|c|d|e|f").is_none());
    assert!(deserialize("").is_none());
    assert!(deserialize("a|b|c|d|e").is_some());
}

#[test]
fn parse_records_skips_empty_lines_and_rejects_malformed() {
    let rs = parse_records("a|b|c|d|e\n\nf|g|h|i|j\n").unwrap();
    assert_eq!(rs.len(), 2);
    assert_eq!(rs[1].to_string(), "f|g|h|i|j");
    assert_eq!(parse_records("").unwrap().len(), 0);
    assert!(parse_records("a|b|c|d|e\nbroken\n").is_none());
}

#[test]
fn folded_texts_match_by_substring() {
    assert!(matches_folded("access denied", "denied"));
    assert!(matches_folded("system::login", "::"));
    assert!(matches_folded("anything", ""));
    assert!(!matches_folded("system::login", "syste::login"));
    assert!(!matches_folded("access denied", "DENIED"));
    assert!(!matches_folded("", "a"));
}
