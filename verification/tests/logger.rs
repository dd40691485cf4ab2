use hamm0r::logger::{format_entry, format_entry_at, split_lines};
use hamm0r::settings::{should_log, LogLevel};

#[test]
fn formats_multiline_entries() {
    let text = format_entry(LogLevel::Info, "app", "app-123", Some("run-001"), "hello\nworld");
    assert!(text.contains("[info] [app] [app_session_id=app-123] [run_id=run-001] hello"));
    assert!(text.contains("\n    world\n"));
}

#[test]
fn entry_layout_is_exact() {
    let text = format_entry_at("2026-01-02T03:04:05Z", LogLevel::Error, "runner", "app-1", None, "a\r\nb\n");
    assert_eq!(text, "[2026-01-02T03:04:05Z] [error] [runner] [app_session_id=app-1] a\n    b\n");
}

#[test]
fn empty_message_ends_the_header_line() {
    let text = format_entry_at("T", LogLevel::Debug, "c", "s", Some("r"), "");
    assert_eq!(text, "[T] [debug] [c] [app_session_id=s] [run_id=r]\n");
}

#[test]
fn split_lines_matches_str_lines() {
    for s in ["", "a", "a\n", "a\r\nb", "\n\n", "x\ry", "one\ntwo\r\n", "\r\n"] {
        let expected: Vec<String> = s.lines().map(str::to_owned).collect();
        assert_eq!(split_lines(s), expected, "input {s:?}");
    }
}

#[test]
fn default_info_level_filters_debug_logs() {
    assert!(should_log(true, LogLevel::Info, LogLevel::Info));
    assert!(should_log(true, LogLevel::Info, LogLevel::Error));
    assert!(!should_log(true, LogLevel::Info, LogLevel::Debug));
    assert!(!should_log(false, LogLevel::Debug, LogLevel::Error));
}
