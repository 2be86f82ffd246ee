use baihu::health::{
    bump_component_restart, mark_component_error, mark_component_ok, snapshot, structured_error,
    HealthRegistry,
};

fn find<'a>(reg: &'a HealthRegistry, name: &str) -> &'a baihu::health::ComponentHealth {
    &reg.components.iter().find(|(n, _)| n == name).unwrap().1
}

#[test]
fn structured_error_contains_all_parts() {
    let msg = structured_error("Connection failed", "DNS timeout", "check your network");
    assert!(msg.contains("Connection failed"));
    assert!(msg.contains("DNS timeout"));
    assert!(msg.contains("check your network"));
    assert!(msg.contains("Cause:"));
    assert!(msg.contains("Fix:"));
}

#[test]
fn structured_error_format() {
    let msg = structured_error("what", "why", "fix");
    assert_eq!(msg, "what\n  Cause: why\n  Fix: fix");
}

#[test]
fn mark_ok_sets_last_ok_to_update_time() {
    let mut reg = HealthRegistry::new();
    mark_component_ok(&mut reg, "gateway");
    let h = find(&reg, "gateway");
    assert_eq!(h.status, "ok");
    assert_eq!(h.last_ok.as_deref(), Some(h.updated_at.as_str()));
    assert!(h.last_error.is_none());
    assert_eq!(h.restart_count, 0);
}

#[test]
fn mark_error_then_ok_clears_error() {
    let mut reg = HealthRegistry::new();
    mark_component_error(&mut reg, "channels", "boom");
    {
        let h = find(&reg, "channels");
        assert_eq!(h.status, "error");
        assert_eq!(h.last_error.as_deref(), Some("boom"));
        assert!(h.last_ok.is_none());
    }
    mark_component_ok(&mut reg, "channels");
    let h = find(&reg, "channels");
    assert_eq!(h.status, "ok");
    assert!(h.last_error.is_none());
    assert_eq!(reg.components.len(), 1);
}

#[test]
fn bump_restart_counts_and_inserts_starting() {
    let mut reg = HealthRegistry::new();
    bump_component_restart(&mut reg, "scheduler");
    bump_component_restart(&mut reg, "scheduler");
    let h = find(&reg, "scheduler");
    assert_eq!(h.status, "starting");
    assert_eq!(h.restart_count, 2);
}

#[test]
fn snapshot_copies_every_component() {
    let mut reg = HealthRegistry::new();
    mark_component_ok(&mut reg, "daemon");
    mark_component_error(&mut reg, "gateway", "down");
    let snap = snapshot(&reg, 77, "2024-01-01T00:00:00+00:00".into(), 12);
    assert_eq!(snap.pid, 77);
    assert_eq!(snap.uptime_seconds, 12);
    assert_eq!(snap.updated_at, "2024-01-01T00:00:00+00:00");
    assert_eq!(snap.components.len(), 2);
    assert_eq!(snap.components[0].0, "daemon");
    assert_eq!(snap.components[0].1.status, "ok");
    assert_eq!(snap.components[1].0, "gateway");
    assert_eq!(snap.components[1].1.last_error.as_deref(), Some("down"));
}

#[test]
fn table_is_kept_in_name_order() {
    let mut reg = HealthRegistry::new();
    mark_component_ok(&mut reg, "scheduler");
    mark_component_ok(&mut reg, "b");
    mark_component_error(&mut reg, "a", "x");
    mark_component_ok(&mut reg, "gateway");
    bump_component_restart(&mut reg, "b");
    let snap = snapshot(&reg, 1, "t".into(), 0);
    let names: Vec<&str> = snap.components.iter().map(|(n, _)| n.as_str()).collect();
    assert_eq!(names, vec!["a", "b", "gateway", "scheduler"]);
    assert_eq!(snap.components[1].1.restart_count, 1);
}
