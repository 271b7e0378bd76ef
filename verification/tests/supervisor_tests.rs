use plugin_supervisor::dispatch::{dispatch_error_status, resolve_route, DispatchError};
use plugin_supervisor::registry::{validate_metadata, has_plugin_extension, PluginMetadata,
    PluginStatus};
use plugin_supervisor::supervisor::{DiscoveryError, PluginSupervisor, RestartDecision,
    SupervisorError};

fn metadata(id: &str, route: &str) -> PluginMetadata {
    PluginMetadata {
        id: id.to_string(),
        name: "Test Plugin".to_string(),
        version: "1.0.0".to_string(),
        author: Some("Test".to_string()),
        icon: "*".to_string(),
        route: route.to_string(),
    }
}

#[test]
fn test_supervisor_creation() {
    let supervisor = PluginSupervisor::new(10);
    assert_eq!(supervisor.max_restarts(), 10);
    assert!(supervisor.get_all_plugins().is_empty());
}

#[test]
fn test_restart_counter() {
    let mut supervisor = PluginSupervisor::new(10);

    assert_eq!(supervisor.get_restart_count("test"), 0);
    assert_eq!(supervisor.increment_restart_count("test"), 1);
    assert_eq!(supervisor.get_restart_count("test"), 1);
    assert_eq!(supervisor.increment_restart_count("test"), 2);

    supervisor.reset_restart_count("test");
    assert_eq!(supervisor.get_restart_count("test"), 0);
}

#[test]
fn test_should_disable() {
    let mut supervisor = PluginSupervisor::new(3);

    assert!(!supervisor.should_disable_plugin("test"));

    supervisor.increment_restart_count("test");
    supervisor.increment_restart_count("test");
    supervisor.increment_restart_count("test");

    assert!(supervisor.should_disable_plugin("test"));
}

#[test]
fn test_spawn_records_running_row() {
    let mut sup = PluginSupervisor::new(3);
    sup.spawn_plugin("good", "/tmp/sockets/good.sock", metadata("good", "/good"), Some(4242));
    let row = sup.get_plugin_status("good").expect("row exists");
    assert!(row.running);
    assert!(row.enabled);
    assert_eq!(row.pid, Some(4242));
    assert_eq!(row.socket_path, "/tmp/sockets/good.sock");
    assert!(sup.get_plugin_status("other").is_none());
    assert_eq!(sup.get_all_plugins().len(), 1);
}

#[test]
fn test_kill_clears_child_and_disables_row() {
    let mut sup = PluginSupervisor::new(3);
    sup.spawn_plugin("p", "/tmp/p.sock", metadata("p", "/p"), Some(7));
    assert_eq!(sup.kill_plugin("p"), Ok(()));
    let row = sup.get_plugin_status("p").expect("row kept");
    assert!(!row.running);
    assert_eq!(row.pid, None);
    assert!(!row.enabled);
    assert_eq!(sup.kill_plugin("ghost"), Err(SupervisorError::PluginNotFound));
}

#[test]
fn test_enable_disable_cycle_keeps_enable_map_true() {
    let mut sup = PluginSupervisor::new(3);
    sup.spawn_plugin("p", "/tmp/p.sock", metadata("p", "/p"), Some(7));

    sup.enable_plugin("p");
    sup.disable_plugin("p");
    assert!(!sup.is_plugin_enabled("p"));
    sup.enable_plugin("p");

    assert!(sup.is_plugin_enabled("p"));
    assert_eq!(sup.get_restart_count("p"), 0);
    let row = sup.get_plugin_status("p").expect("row kept");
    assert!(row.enabled);
}

#[test]
fn test_enable_resets_restart_counter() {
    let mut sup = PluginSupervisor::new(10);
    sup.increment_restart_count("p");
    sup.increment_restart_count("p");
    assert_eq!(sup.get_restart_count("p"), 2);
    sup.enable_plugin("p");
    assert_eq!(sup.get_restart_count("p"), 0);
}

#[test]
fn test_backoff_schedule_starts_at_one_second() {
    let mut sup = PluginSupervisor::new(10);
    sup.spawn_plugin("p", "/tmp/p.sock", metadata("p", "/p"), Some(7));
    sup.record_exit("p").unwrap();
    let d1 = sup.restart_plugin_with_backoff("p");
    assert_eq!(d1, RestartDecision::Backoff { delay_ms: 1000 });
    let d2 = sup.restart_plugin_with_backoff("p");
    assert_eq!(d2, RestartDecision::Backoff { delay_ms: 2000 });
    let d3 = sup.restart_plugin_with_backoff("p");
    assert_eq!(d3, RestartDecision::Backoff { delay_ms: 4000 });
    let d4 = sup.restart_plugin_with_backoff("p");
    assert_eq!(d4, RestartDecision::Backoff { delay_ms: 8000 });
    let d5 = sup.restart_plugin_with_backoff("p");
    assert_eq!(d5, RestartDecision::Backoff { delay_ms: 16000 });
    let d6 = sup.restart_plugin_with_backoff("p");
    assert_eq!(d6, RestartDecision::Backoff { delay_ms: 16000 });
}

#[test]
fn test_restart_storm_disables_at_threshold() {
    let mut sup = PluginSupervisor::new(3);
    sup.spawn_plugin("p", "/tmp/p.sock", metadata("p", "/p"), Some(7));

    sup.record_exit("p").unwrap();
    assert_eq!(sup.restart_plugin_with_backoff("p"), RestartDecision::Backoff { delay_ms: 1000 });
    assert_eq!(sup.restart_plugin_with_backoff("p"), RestartDecision::Backoff { delay_ms: 2000 });
    // The third consecutive crash reaches max_restarts = 3 and disables.
    assert_eq!(sup.restart_plugin_with_backoff("p"), RestartDecision::Disable);

    assert!(!sup.is_plugin_enabled("p"));
    assert_eq!(sup.get_restart_count("p"), 3);
    let row = sup.get_plugin_status("p").expect("row retained");
    assert!(!row.running && !row.enabled && row.pid.is_none());
    // Routes to the disabled plugin no longer resolve.
    let r = resolve_route(&sup, "p/hello", None);
    assert_eq!(r, Err(DispatchError::NotFound));
    assert_eq!(dispatch_error_status(&DispatchError::NotFound), 404);
}

#[test]
fn test_route_resolution_round_trip() {
    let mut sup = PluginSupervisor::new(3);
    sup.spawn_plugin("p", "/tmp/p.sock", metadata("p", "/p"), Some(7));

    let (id, path) = resolve_route(&sup, "p/hello", Some("x=1")).expect("resolves");
    assert_eq!(id, "p");
    assert_eq!(path, "/hello?x=1");

    let (_, root) = resolve_route(&sup, "p", None).expect("resolves");
    assert_eq!(root, "/");

    assert_eq!(resolve_route(&sup, "unknown/x", None), Err(DispatchError::NotFound));
}

#[test]
fn test_route_segment_with_dotdot_is_bad_request() {
    let sup = PluginSupervisor::new(3);
    let r = resolve_route(&sup, "../etc/passwd", None);
    assert_eq!(r, Err(DispatchError::BadRequest));
    assert_eq!(dispatch_error_status(&DispatchError::BadRequest), 400);
}

#[test]
fn test_disabled_plugin_route_does_not_resolve() {
    let mut sup = PluginSupervisor::new(3);
    sup.spawn_plugin("p", "/tmp/p.sock", metadata("p", "/p"), Some(7));
    assert!(resolve_route(&sup, "p/x", None).is_ok());
    sup.disable_plugin("p");
    assert_eq!(resolve_route(&sup, "p/x", None), Err(DispatchError::NotFound));
}

#[test]
fn test_metadata_id_with_slash_rejected_at_discovery() {
    let sup = PluginSupervisor::new(3);
    let bad = metadata("evil/../../etc", "/evil");
    assert!(!validate_metadata(&bad));
    assert_eq!(sup.discovery_admit(&bad), Err(DiscoveryError::InvalidMetadata));
}

#[test]
fn test_metadata_validation_rules() {
    assert!(validate_metadata(&metadata("good-1", "/good")));
    assert!(!validate_metadata(&metadata("", "/good")));
    assert!(!validate_metadata(&metadata("good", "good")));
    assert!(!validate_metadata(&metadata("good", "/good/../up")));
    let mut long_name = metadata("good", "/good");
    long_name.name = "n".repeat(101);
    assert!(!validate_metadata(&long_name));
}

#[test]
fn test_discovery_admits_exactly_new_valid_plugins() {
    let mut sup = PluginSupervisor::new(3);
    let good = metadata("good", "/good");
    assert_eq!(sup.discovery_admit(&good), Ok(()));
    sup.spawn_plugin("good", "/tmp/good.sock", good.clone(), Some(1));

    // The same id is skipped on a second discovery.
    assert_eq!(sup.discovery_admit(&good), Err(DiscoveryError::DuplicateId));
    // A different id claiming the same route is rejected.
    let squatter = metadata("other", "/good");
    assert_eq!(sup.discovery_admit(&squatter), Err(DiscoveryError::DuplicateRoute));
    // The registry still holds exactly the one admitted plugin.
    assert_eq!(sup.get_all_plugins().len(), 1);
    assert_eq!(sup.get_all_plugins()[0].id, "good");
}

#[test]
fn test_plugin_extension_marker() {
    assert!(has_plugin_extension("good.binary"));
    assert!(has_plugin_extension("a.b.binary"));
    assert!(!has_plugin_extension("good.bin"));
    assert!(!has_plugin_extension("binary"));
    assert!(!has_plugin_extension(""));
}

#[test]
fn test_health_requires_all_conditions() {
    let mut sup = PluginSupervisor::new(3);
    sup.spawn_plugin("p", "/tmp/p.sock", metadata("p", "/p"), Some(7));
    assert!(sup.check_plugin_health("p", true, true));
    assert!(!sup.check_plugin_health("p", false, true));
    assert!(!sup.check_plugin_health("p", true, false));
    assert!(!sup.check_plugin_health("ghost", true, true));
    sup.disable_plugin("p");
    assert!(!sup.check_plugin_health("p", true, true));
}

#[test]
fn test_plugin_status_health_words() {
    let mut sup = PluginSupervisor::new(3);
    sup.spawn_plugin("p", "/tmp/p.sock", metadata("p", "/p"), Some(7));
    let row = sup.get_plugin_status("p").unwrap();
    let healthy = PluginStatus::from_process(row, true);
    assert_eq!(healthy.health, "healthy");
    assert_eq!(healthy.name, "Test Plugin");
    assert_eq!(healthy.version, "1.0.0");
    assert_eq!(healthy.author, Some("Test".to_string()));
    let unhealthy = PluginStatus::from_process(row, false);
    assert_eq!(unhealthy.health, "unhealthy");
    sup.disable_plugin("p");
    let row = sup.get_plugin_status("p").unwrap();
    let disabled = PluginStatus::from_process(row, true);
    assert_eq!(disabled.health, "disabled");
    assert_eq!(disabled.socket_path, Some("/tmp/p.sock".to_string()));
}

#[test]
fn test_enable_cold_sets_map_before_spawn() {
    let mut sup = PluginSupervisor::new(3);
    // The plugin has never run: enabling it records the flag and resets
    // the counter; the runtime then spawns it and records the row.
    sup.enable_plugin("p");
    assert!(sup.is_plugin_enabled("p"));
    assert_eq!(sup.get_restart_count("p"), 0);
    assert!(sup.get_plugin_status("p").is_none());
    sup.spawn_plugin("p", "/tmp/p.sock", metadata("p", "/p"), Some(9));
    let row = sup.get_plugin_status("p").expect("row recorded");
    assert!(row.running && row.enabled);
}
