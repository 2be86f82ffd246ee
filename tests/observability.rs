use baihu::observability::{create_observer, ObservabilityConfig};

#[test]
fn factory_none_returns_noop() {
    let cfg = ObservabilityConfig {
        backend: "none".into(),
    };
    assert_eq!(create_observer(&cfg).name(), "noop");
}

#[test]
fn factory_noop_returns_noop() {
    let cfg = ObservabilityConfig {
        backend: "noop".into(),
    };
    assert_eq!(create_observer(&cfg).name(), "noop");
}

#[test]
fn factory_log_returns_log() {
    let cfg = ObservabilityConfig {
        backend: "log".into(),
    };
    assert_eq!(create_observer(&cfg).name(), "log");
}

#[test]
fn factory_unknown_falls_back_to_noop() {
    let cfg = ObservabilityConfig {
        backend: "prometheus".into(),
    };
    assert_eq!(create_observer(&cfg).name(), "noop");
}

#[test]
fn factory_empty_string_falls_back_to_noop() {
    let cfg = ObservabilityConfig {
        backend: String::new(),
    };
    assert_eq!(create_observer(&cfg).name(), "noop");
}

#[test]
fn factory_garbage_falls_back_to_noop() {
    let cfg = ObservabilityConfig {
        backend: "xyzzy_garbage_123".into(),
    };
    assert_eq!(create_observer(&cfg).name(), "noop");
}
