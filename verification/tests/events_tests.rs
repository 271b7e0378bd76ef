use plugin_supervisor::events::{EventLog, EventType, PluginEvent};

#[test]
fn test_t23_plugin_events_written_to_database() {
    let mut events: Vec<PluginEvent> = Vec::new();

    events.push(PluginEvent {
        id: 1,
        plugin_id: "test-plugin".to_string(),
        event_type: "started".to_string(),
        timestamp: chrono::Utc::now().to_rfc3339(),
        details: Some("Plugin started successfully".to_string()),
    });
    events.push(PluginEvent {
        id: 2,
        plugin_id: "test-plugin".to_string(),
        event_type: "stopped".to_string(),
        timestamp: chrono::Utc::now().to_rfc3339(),
        details: Some("Plugin stopped by user".to_string()),
    });

    assert_eq!(events.len(), 2, "Should have 2 events");
    assert_eq!(events[0].event_type, "started", "First event should be 'started'");
    assert_eq!(events[1].event_type, "stopped", "Second event should be 'stopped'");
}

#[test]
fn test_event_log_appends_with_increasing_ids() {
    let mut log = EventLog::new();
    let a = log.plugin_event_log("p", EventType::Started, None);
    let b = log.plugin_event_log("p", EventType::Killed, Some("operator".to_string()));
    assert_eq!(a, 1);
    assert_eq!(b, 2);
    let rows = log.events();
    assert_eq!(rows.len(), 2);
    assert_eq!(rows[0].event_type, "started");
    assert_eq!(rows[1].event_type, "killed");
    assert_eq!(rows[1].details, Some("operator".to_string()));
}

#[test]
fn test_event_log_prune_by_age() {
    let mut log = EventLog::new();
    log.plugin_event_log("p", EventType::Started, None);
    log.plugin_event_log("p", EventType::RestartingWithBackoff, None);

    // An empty cutoff precedes every timestamp: nothing is pruned.
    log.prune_older_than("");
    assert_eq!(log.events().len(), 2);

    // A cutoff after every real timestamp prunes everything.
    log.prune_older_than("9999");
    assert_eq!(log.events().len(), 0);
}

#[test]
fn test_recent_events_newest_first_and_limited() {
    let mut log = EventLog::new();
    log.plugin_event_log("p", EventType::Started, None);
    log.plugin_event_log("q", EventType::Started, None);
    log.plugin_event_log("p", EventType::Killed, None);
    log.plugin_event_log("p", EventType::Enabled, None);

    let recent = log.plugin_event_get_recent("p", 2);
    assert_eq!(recent.len(), 2);
    assert_eq!(recent[0].event_type, "enabled");
    assert_eq!(recent[1].event_type, "killed");
    assert!(recent.iter().all(|e| e.plugin_id == "p"));

    let all = log.plugin_event_get_recent("p", 10);
    assert_eq!(all.len(), 3);
    assert_eq!(all[2].event_type, "started");

    assert_eq!(log.plugin_event_get_recent("r", 5).len(), 0);
}

#[test]
fn test_event_type_names() {
    assert_eq!(EventType::Started.name(), "started");
    assert_eq!(EventType::Killed.name(), "killed");
    assert_eq!(EventType::Enabled.name(), "enabled");
    assert_eq!(EventType::Disabled.name(), "disabled");
    assert_eq!(EventType::RestartingWithBackoff.name(), "restarting_with_backoff");
    assert_eq!(
        EventType::DisabledAfterMaxRestarts.name(),
        "disabled_after_max_restarts"
    );
    assert_eq!(EventType::SpawnFailed.name(), "spawn_failed");
}
