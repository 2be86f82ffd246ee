use baihu::daemon::{
    backoff_bounds, has_supervised_channels, lock_conflict_message, lock_file_path, state_file_path,
    supervised_components, ChannelAdapterConfig, DaemonConfig,
};

#[test]
fn state_file_path_uses_config_directory() {
    let mut config = DaemonConfig::default();
    config.config_dir = "/tmp/baihu-test".into();
    let path = state_file_path(&config);
    assert_eq!(path, "/tmp/baihu-test/daemon_state.json");
}

#[test]
fn state_file_path_with_trailing_slash_and_empty_dir() {
    let mut config = DaemonConfig::default();
    config.config_dir = "/srv/cfg/".into();
    assert_eq!(state_file_path(&config), "/srv/cfg/daemon_state.json");
    config.config_dir = String::new();
    assert_eq!(state_file_path(&config), "daemon_state.json");
}

#[test]
fn lock_file_sits_next_to_config() {
    let mut config = DaemonConfig::default();
    config.config_dir = "/tmp/x".into();
    assert_eq!(lock_file_path(&config), "/tmp/x/daemon.lock");
}

#[test]
fn detects_no_supervised_channels() {
    let config = DaemonConfig::default();
    assert!(!has_supervised_channels(&config));
}

#[test]
fn detects_supervised_channels_present() {
    let mut config = DaemonConfig::default();
    config.channels_config.telegram = Some(ChannelAdapterConfig {
        bot_token: "token".into(),
        allowed_users: vec![],
    });
    assert!(has_supervised_channels(&config));
}

#[test]
fn supervised_components_follow_config() {
    let mut config = DaemonConfig::default();
    assert_eq!(supervised_components(&config), vec!["gateway", "scheduler"]);
    config.heartbeat.enabled = true;
    config.channels_config.matrix = Some(ChannelAdapterConfig {
        bot_token: "t".into(),
        allowed_users: vec![],
    });
    assert_eq!(
        supervised_components(&config),
        vec!["gateway", "channels", "heartbeat", "scheduler"]
    );
}

#[test]
fn backoff_bounds_are_coerced() {
    let mut config = DaemonConfig::default();
    config.reliability.channel_initial_backoff_secs = 0;
    config.reliability.channel_max_backoff_secs = 0;
    assert_eq!(backoff_bounds(&config), (1, 1));
    config.reliability.channel_initial_backoff_secs = 10;
    config.reliability.channel_max_backoff_secs = 5;
    assert_eq!(backoff_bounds(&config), (10, 10));
    config.reliability.channel_max_backoff_secs = 60;
    assert_eq!(backoff_bounds(&config), (10, 60));
}

#[test]
fn lock_conflict_mentions_other_instance() {
    let msg = lock_conflict_message("/cfg/daemon.lock");
    assert!(msg.contains("another instance holds the lock"));
    assert_eq!(
        msg,
        "Failed to start daemon\n  Cause: another instance holds the lock (/cfg/daemon.lock)\n  Fix: stop the existing daemon with Ctrl+C or remove the lock file"
    );
}
