use mission_control::config::{default_arc_turns, default_idle_threshold_secs, default_runaway_threshold, join_path, Config};

#[test]
fn defaults() {
    assert_eq!(default_runaway_threshold(), 25);
    assert_eq!(default_idle_threshold_secs(), 900);
    assert_eq!(default_arc_turns(), 5);
    let c = Config::default();
    assert_eq!(c.runaway_threshold, 25);
    assert_eq!(c.idle_threshold_secs, 900);
    assert_eq!(c.arc_turns, 5);
    assert!(c.herdr_socket.is_none());
}

#[test]
fn config_path() {
    assert_eq!(Config::default_path(Some("/home/u/.config")), "/home/u/.config/mc/config.toml");
    assert_eq!(Config::default_path(None), "./mc/config.toml");
}

#[test]
fn joining_paths() {
    assert_eq!(join_path("/a", "b"), "/a/b");
    assert_eq!(join_path("/a/", "b"), "/a/b");
    assert_eq!(join_path("", "b"), "b");
}
