use rustdb::console::{format_row, parse_instruction, ConsoleAction};
use rustdb::durability::format_record;
use rustdb::logging::{format_log_line, LogType};
use rustdb::text::{find_char, split_on, str_eq, tokens_of};

#[test]
fn test_parse_put() {
    match parse_instruction("put alice 30") {
        ConsoleAction::Put { key, value } => {
            assert_eq!(key, "alice");
            assert_eq!(value, "30");
        }
        _ => panic!("expected a put action"),
    }
}

#[test]
fn test_parse_put_wrong_arity() {
    assert!(matches!(parse_instruction("put alice"), ConsoleAction::UsageError));
    assert!(matches!(parse_instruction("put"), ConsoleAction::UsageError));
    assert!(matches!(parse_instruction("put a b c"), ConsoleAction::UsageError));
}

#[test]
fn test_parse_other_commands() {
    assert!(matches!(parse_instruction("quit"), ConsoleAction::Quit));
    assert!(matches!(parse_instruction("ls"), ConsoleAction::ListRecords));
    assert!(matches!(parse_instruction("help"), ConsoleAction::Help));
}

#[test]
fn test_parse_unknown_command() {
    assert!(matches!(parse_instruction("frobnicate"), ConsoleAction::Unknown));
    assert!(matches!(parse_instruction(""), ConsoleAction::Unknown));
    assert!(matches!(parse_instruction("putx a b"), ConsoleAction::Unknown));
}

#[test]
fn test_format_row() {
    assert_eq!(format_row("alice,30"), "| alice | 30 |\n");
    assert_eq!(format_row("alice"), "| alice |\n");
    assert_eq!(format_row(""), "|  |\n");
}

#[test]
fn test_format_record() {
    assert_eq!(format_record("alice", "30"), "alice,30");
    assert_eq!(format_record("", ""), ",");
}

#[test]
fn test_format_log_line() {
    assert_eq!(
        format_log_line(&LogType::Info, "01 Jan 2026 00:00:00.000", "Request received"),
        "[INFO] 01 Jan 2026 00:00:00.000 > Request received"
    );
    assert_eq!(format_log_line(&LogType::Error, "t", "m"), "[ERROR] t > m");
    assert_eq!(format_log_line(&LogType::Warning, "t", "m"), "[WARNING] t > m");
}

#[test]
fn test_split_on() {
    assert_eq!(split_on("a,b,,c", ','), vec!["a", "b", "", "c"]);
    assert_eq!(split_on("", ','), vec![""]);
    assert_eq!(split_on("abc", ','), vec!["abc"]);
    assert_eq!(split_on("/alice/30", '/'), vec!["", "alice", "30"]);
}

#[test]
fn test_tokens_of() {
    assert_eq!(tokens_of("GET  /alice HTTP/1.1"), vec!["GET", "/alice", "HTTP/1.1"]);
    assert_eq!(tokens_of(" \t a \r\n b "), vec!["a", "b"]);
    assert_eq!(tokens_of(""), Vec::<String>::new());
    assert_eq!(tokens_of("   "), Vec::<String>::new());
}

#[test]
fn test_find_char() {
    assert_eq!(find_char("hello", 0, 'l'), Some(2));
    assert_eq!(find_char("hello", 3, 'l'), Some(3));
    assert_eq!(find_char("hello", 0, 'z'), None);
}

#[test]
fn test_str_eq() {
    assert!(str_eq("abc", "abc"));
    assert!(!str_eq("abc", "abd"));
    assert!(!str_eq("abc", "ab"));
    assert!(str_eq("", ""));
}
