use fakeblok::directory::{GameDirectory, HealthMonitor, PingOutcome};

#[test]
fn register_returns_previous_name_and_bumps_version() {
    let mut d = GameDirectory::new();
    let prev = d.register(1, 4000, String::from("alpha"));
    assert!(prev.is_none());
    assert_eq!(d.games.len(), 1);
    assert_eq!(d.games[0].version, 0);
    let prev = d.register(1, 4000, String::from("beta"));
    assert_eq!(prev.as_deref(), Some("alpha"));
    assert_eq!(d.games.len(), 1);
    assert_eq!(d.games[0].name, "beta");
    assert_eq!(d.games[0].version, 1);
}

#[test]
fn register_keeps_other_addresses_apart() {
    let mut d = GameDirectory::new();
    assert!(d.register(1, 4000, String::from("alpha")).is_none());
    assert!(d.register(1, 4001, String::from("beta")).is_none());
    assert!(d.register(2, 4000, String::from("gamma")).is_none());
    assert_eq!(d.games.len(), 3);
    let listing = d.list();
    assert_eq!(listing.len(), 3);
    assert!(listing.contains(&(1, 4000, String::from("alpha"))));
    assert!(listing.contains(&(1, 4001, String::from("beta"))));
    assert!(listing.contains(&(2, 4000, String::from("gamma"))));
}

#[test]
fn unregister_returns_name_once() {
    let mut d = GameDirectory::new();
    d.register(1, 4000, String::from("alpha"));
    assert_eq!(d.unregister(1, 4000).as_deref(), Some("alpha"));
    assert!(d.unregister(1, 4000).is_none());
    assert_eq!(d.games.len(), 0);
}

#[test]
fn stale_health_check_does_not_unregister_newer_game() {
    let mut d = GameDirectory::new();
    d.register(1, 4000, String::from("alpha"));
    // a newer registration replaced the entry the health check watched
    d.register(1, 4000, String::from("beta"));
    assert!(!d.unregister_if_version(1, 4000, 0));
    assert_eq!(d.games.len(), 1);
    assert_eq!(d.games[0].name, "beta");
    // the current health check may unregister it
    assert!(d.unregister_if_version(1, 4000, 1));
    assert_eq!(d.games.len(), 0);
}

#[test]
fn health_monitor_gives_up_after_three_failures() {
    let mut m = HealthMonitor::new();
    assert!(!m.on_ping_result(PingOutcome::OtherError));
    assert!(!m.on_ping_result(PingOutcome::OtherError));
    assert!(m.on_ping_result(PingOutcome::OtherError));
}

#[test]
fn health_monitor_resets_on_answer() {
    let mut m = HealthMonitor::new();
    assert!(!m.on_ping_result(PingOutcome::OtherError));
    assert!(!m.on_ping_result(PingOutcome::OtherError));
    assert!(!m.on_ping_result(PingOutcome::Pong));
    assert!(!m.on_ping_result(PingOutcome::OtherError));
    assert!(!m.on_ping_result(PingOutcome::OtherError));
    assert!(m.on_ping_result(PingOutcome::OtherError));
}

#[test]
fn health_monitor_gives_up_on_connection_reset() {
    let mut m = HealthMonitor::new();
    assert!(m.on_ping_result(PingOutcome::ConnectionReset));
}
