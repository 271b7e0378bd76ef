use plugin_supervisor::logging::{LogEntry, LogLevel, filter_plugin_logs, needs_rotation,
    plugin_log_path, rotation_victims, supervisor_log_message, supervisor_log_path};

#[test]
fn test_log_entry_creation() {
    let entry = LogEntry::new(LogLevel::Info, "Test message")
        .with_plugin("test-plugin")
        .with_error("Test error");

    assert_eq!(entry.level, "Info");
    assert_eq!(entry.message, "Test message");
    assert_eq!(entry.plugin, Some("test-plugin".to_string()));
    assert_eq!(entry.error, Some("Test error".to_string()));
}

#[test]
fn test_log_level_severity() {
    assert!(LogLevel::Error.severity() > LogLevel::Info.severity());
    assert!(LogLevel::Info.severity() > LogLevel::Debug.severity());
    assert!(LogLevel::Trace.severity() == 0);
}

#[test]
fn test_log_level_parse_level() {
    assert_eq!(LogLevel::parse_level("info"), Some(LogLevel::Info));
    assert_eq!(LogLevel::parse_level("ERROR"), Some(LogLevel::Error));
    assert_eq!(LogLevel::parse_level("invalid"), None);
}

fn entry(level: LogLevel, message: &str) -> LogEntry {
    LogEntry::new(level, message)
}

#[test]
fn test_filter_keeps_severe_entries_newest_first() {
    let entries = vec![
        entry(LogLevel::Debug, "one"),
        entry(LogLevel::Warn, "two"),
        entry(LogLevel::Info, "three"),
        entry(LogLevel::Error, "four"),
    ];
    let out = filter_plugin_logs(&entries, Some(LogLevel::Warn), 0, 10);
    assert_eq!(out.len(), 2);
    assert_eq!(out[0].message, "four");
    assert_eq!(out[1].message, "two");
}

#[test]
fn test_filter_pagination() {
    let entries: Vec<LogEntry> = (0..5).map(|i| entry(LogLevel::Info, &format!("m{}", i))).collect();
    let page0 = filter_plugin_logs(&entries, None, 0, 2);
    assert_eq!(page0.len(), 2);
    assert_eq!(page0[0].message, "m4");
    assert_eq!(page0[1].message, "m3");
    let page2 = filter_plugin_logs(&entries, None, 2, 2);
    assert_eq!(page2.len(), 1);
    assert_eq!(page2[0].message, "m0");
    let page3 = filter_plugin_logs(&entries, None, 3, 2);
    assert_eq!(page3.len(), 0);
}

#[test]
fn test_filter_drops_unparsable_levels() {
    let mut bad = entry(LogLevel::Info, "odd");
    bad.level = "mystery".to_string();
    let entries = vec![bad, entry(LogLevel::Error, "kept")];
    let out = filter_plugin_logs(&entries, Some(LogLevel::Trace), 0, 10);
    assert_eq!(out.len(), 1);
    assert_eq!(out[0].message, "kept");
}

#[test]
fn test_needs_rotation_threshold() {
    assert!(!needs_rotation(100, 200));
    assert!(needs_rotation(200, 200));
    assert!(needs_rotation(300, 200));
}

#[test]
fn test_rotation_victims_oldest_first() {
    let mtimes = vec![50u64, 10, 30];
    let victims = rotation_victims(&mtimes, 1);
    assert_eq!(victims, vec![1usize, 2]);
    let none = rotation_victims(&mtimes, 5);
    assert!(none.is_empty());
}

#[test]
fn test_log_paths() {
    assert_eq!(plugin_log_path("/var/log/toru", "demo"), "/var/log/toru/plugins/demo.log");
    assert_eq!(supervisor_log_path("./logs"), "./logs/plugin-supervisor.log");
}

#[test]
fn test_supervisor_log_message_shape() {
    assert_eq!(supervisor_log_message("p", "started", None), "Plugin p: started");
    assert_eq!(
        supervisor_log_message("p", "restarting_with_backoff", Some("delay_ms=1000")),
        "Plugin p: restarting_with_backoff - delay_ms=1000"
    );
}

#[test]
fn test_with_pid_sets_pid() {
    let e = LogEntry::new(LogLevel::Debug, "x").with_pid(42);
    assert_eq!(e.pid, Some(42));
    assert_eq!(e.level, "Debug");
}
