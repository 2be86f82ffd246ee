use baihu::health::HealthRegistry;
use baihu::supervisor::Supervisor;

fn entry<'a>(reg: &'a HealthRegistry, name: &str) -> &'a baihu::health::ComponentHealth {
    &reg.components.iter().find(|(n, _)| n == name).unwrap().1
}

#[test]
fn supervisor_marks_error_and_restart_on_failure() {
    let mut reg = HealthRegistry::new();
    let mut sup = Supervisor::new(1, 1);
    sup.on_start(&mut reg, "daemon-test-fail");
    assert_eq!(entry(&reg, "daemon-test-fail").status, "ok");
    let sleep = sup.on_exit(&mut reg, "daemon-test-fail", Err("boom".to_string()));
    assert!(sleep >= 1);
    let c = entry(&reg, "daemon-test-fail");
    assert_eq!(c.status, "error");
    assert!(c.restart_count >= 1);
    assert!(c.last_error.as_deref().unwrap_or("").contains("boom"));
}

#[test]
fn supervisor_marks_unexpected_exit_as_error() {
    let mut reg = HealthRegistry::new();
    let mut sup = Supervisor::new(1, 1);
    sup.on_start(&mut reg, "daemon-test-exit");
    sup.on_exit(&mut reg, "daemon-test-exit", Ok(()));
    let c = entry(&reg, "daemon-test-exit");
    assert_eq!(c.status, "error");
    assert!(c.restart_count >= 1);
    assert!(c.last_error.as_deref().unwrap_or("").contains("component exited unexpectedly"));
}

#[test]
fn supervisor_backoff_doubles_to_max() {
    let mut reg = HealthRegistry::new();
    let mut sup = Supervisor::new(0, 0);
    assert_eq!((sup.backoff_secs, sup.max_backoff_secs), (1, 1));
    let mut sup2 = Supervisor::new(3, 20);
    let s = sup2.on_exit_with(&mut reg, "w", Err("x".into()), u32::MAX, "t1".into());
    assert_eq!(s, 3);
    assert_eq!(sup2.backoff_secs, 6);
    let s = sup2.on_exit_with(&mut reg, "w", Err("y".into()), 0, "t2".into());
    assert_eq!(s, 4);
    assert_eq!(sup2.backoff_secs, 12);
    sup2.on_exit_with(&mut reg, "w", Err("z".into()), 0, "t3".into());
    assert_eq!(sup2.backoff_secs, 20);
    let c = entry(&reg, "w");
    assert_eq!(c.restart_count, 3);
    assert_eq!(c.updated_at, "t3");
    assert_eq!(c.last_error.as_deref(), Some("z"));
    sup.on_start(&mut reg, "w");
    assert_eq!(entry(&reg, "w").status, "ok");
}
