use chrono::{Datelike, Duration, NaiveDate};

use codesearch::logger::{
    cleanup_interval_hours, cleanup_old_logs, expired_logs, filter_directives, get_log_dir,
    parse_log_date, parse_signed, DatedLog, LogLevel, LogRotationConfig,
    DEFAULT_LOG_MAX_FILES, DEFAULT_LOG_RETENTION_DAYS,
};

#[test]
fn test_log_level_parse() {
    assert_eq!(LogLevel::parse("error"), Some(LogLevel::Error));
    assert_eq!(LogLevel::parse("ERROR"), Some(LogLevel::Error));
    assert_eq!(LogLevel::parse("warn"), Some(LogLevel::Warn));
    assert_eq!(LogLevel::parse("warning"), Some(LogLevel::Warn));
    assert_eq!(LogLevel::parse("info"), Some(LogLevel::Info));
    assert_eq!(LogLevel::parse("debug"), Some(LogLevel::Debug));
    assert_eq!(LogLevel::parse("trace"), Some(LogLevel::Trace));
    assert_eq!(LogLevel::parse("invalid"), None);
}

#[test]
fn test_log_level_as_str() {
    assert_eq!(LogLevel::Error.as_str(), "error");
    assert_eq!(LogLevel::Warn.as_str(), "warn");
    assert_eq!(LogLevel::Info.as_str(), "info");
    assert_eq!(LogLevel::Debug.as_str(), "debug");
    assert_eq!(LogLevel::Trace.as_str(), "trace");
}

#[test]
fn levels_are_read_back() {
    for level in [
        LogLevel::Error,
        LogLevel::Warn,
        LogLevel::Info,
        LogLevel::Debug,
        LogLevel::Trace,
    ] {
        assert_eq!(LogLevel::parse(level.as_str()), Some(level));
    }
    assert_eq!(
        filter_directives(LogLevel::Debug),
        "debug,tantivy=warn,arroy=warn,ort=warn,h2=warn,hyper=warn,tower=warn"
    );
}

#[test]
fn test_log_rotation_config_from_env() {
    let config = LogRotationConfig::from_env(None, None);
    assert!(config.max_files > 0);
    assert!(config.retention_days > 0);
}

#[test]
fn settings_are_read() {
    let config = LogRotationConfig::from_env(Some("12"), Some("-3"));
    assert_eq!(config.max_files, 12);
    assert_eq!(config.retention_days, -3);
    let config = LogRotationConfig::from_env(Some("-1"), Some("a week"));
    assert_eq!(config.max_files, DEFAULT_LOG_MAX_FILES);
    assert_eq!(config.retention_days, DEFAULT_LOG_RETENTION_DAYS);
    assert_eq!(cleanup_interval_hours(None), 24);
    assert_eq!(cleanup_interval_hours(Some("6")), 6);
    assert_eq!(cleanup_interval_hours(Some("six")), 24);
}

#[test]
fn signed_numbers() {
    for text in [
        "0", "-0", "7", "+7", "-7", "-9223372036854775808", "9223372036854775807",
        "9223372036854775808", "-9223372036854775809", "", "-", "+", "-+1", "--1", "1 ", "x",
    ] {
        assert_eq!(parse_signed(text), text.parse::<i64>().ok(), "{}", text);
    }
}

#[test]
fn test_get_log_dir() {
    assert_eq!(get_log_dir("/test/db"), "/test/db/logs");
}

#[test]
fn test_parse_log_date() {
    assert_eq!(
        parse_log_date("codesearch.log.2026-02-09"),
        Some(NaiveDate::from_ymd_opt(2026, 2, 9).unwrap().num_days_from_ce())
    );
    assert_eq!(parse_log_date("codesearch.log"), None);
    assert_eq!(parse_log_date("codesearch.log.1"), None);
    assert_eq!(parse_log_date("other.log.2026-02-09"), None);
}

fn today() -> NaiveDate {
    NaiveDate::from_ymd_opt(2026, 3, 2).unwrap()
}

fn name(days_ago: i64) -> String {
    format!("codesearch.log.{}", (today() - Duration::days(days_ago)).format("%Y-%m-%d"))
}

#[test]
fn test_cleanup_old_logs_by_retention() {
    let names = vec![name(0), name(10)];
    let config = LogRotationConfig { max_files: 100, retention_days: 5 };
    let gone = cleanup_old_logs(&names, today().num_days_from_ce(), &config);
    assert!(!gone.contains(&0), "Recent log file should be retained");
    assert!(gone.contains(&1), "Old log file should be removed");
}

#[test]
fn test_cleanup_old_logs_by_max_files() {
    let names: Vec<String> = (0..5).map(name).collect();
    let config = LogRotationConfig { max_files: 3, retention_days: 30 };
    let gone = cleanup_old_logs(&names, today().num_days_from_ce(), &config);
    assert!(!gone.contains(&0), "Today's log should remain");
    assert!(!gone.contains(&1), "Yesterday's log should remain");
    assert!(!gone.contains(&2), "2 days ago log should remain");
    assert!(gone.contains(&3), "3 days ago log should be removed");
    assert!(gone.contains(&4), "4 days ago log should be removed");
    assert_eq!(gone, vec![4, 3]);
}

#[test]
fn test_cleanup_empty_dir() {
    let config = LogRotationConfig { max_files: 5, retention_days: 5 };
    assert!(cleanup_old_logs(&vec![], today().num_days_from_ce(), &config).is_empty());
}

#[test]
fn other_files_stay() {
    let names = vec!["notes.txt".to_string(), "codesearch.log".to_string()];
    let config = LogRotationConfig { max_files: 0, retention_days: 0 };
    assert!(cleanup_old_logs(&names, today().num_days_from_ce(), &config).is_empty());
}

#[test]
fn both_criteria_at_once() {
    let logs = vec![
        DatedLog { place: 0, day: 100 },
        DatedLog { place: 1, day: 90 },
        DatedLog { place: 2, day: 99 },
        DatedLog { place: 3, day: 98 },
    ];
    let config = LogRotationConfig { max_files: 2, retention_days: 5 };
    let gone: Vec<usize> = expired_logs(&logs, 100, &config).iter().map(|l| l.place).collect();
    assert_eq!(gone, vec![1, 3]);
}
