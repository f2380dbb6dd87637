use axdd::sample::{build_snapshot, ConnectorEntry};
use axdd::snapshot::ConnectorSnapshot;

fn entry(name: &str, status: Option<&str>) -> ConnectorEntry {
    ConnectorEntry { name: name.to_string(), status: status.map(|s| s.to_string()) }
}

fn snap(pairs: &[(&str, &str)]) -> ConnectorSnapshot {
    let mut s = ConnectorSnapshot::new();
    for (k, v) in pairs {
        s.insert(k.to_string(), v.to_string());
    }
    s
}

#[test]
fn insert_then_lookup() {
    let s = snap(&[("card0-DP-1", "connected\n")]);
    assert_eq!(s.status_of(&"card0-DP-1".to_string()), Some(&"connected\n".to_string()));
    assert_eq!(s.status_of(&"card0-DP-2".to_string()), None);
}

#[test]
fn insert_replaces_status() {
    let s = snap(&[("card0-DP-1", "disconnected"), ("card0-DP-1", "connected")]);
    assert_eq!(s.status_of(&"card0-DP-1".to_string()), Some(&"connected".to_string()));
    assert!(s.same_as(&snap(&[("card0-DP-1", "connected")])));
}

#[test]
fn same_as_ignores_order() {
    let a = snap(&[("card0-DP-1", "connected"), ("card0-HDMI-1", "disconnected")]);
    let b = snap(&[("card0-HDMI-1", "disconnected"), ("card0-DP-1", "connected")]);
    assert!(a.same_as(&b));
    assert!(b.same_as(&a));
}

#[test]
fn same_as_sees_changed_status() {
    let a = snap(&[("card0-DP-1", "connected")]);
    let b = snap(&[("card0-DP-1", "disconnected")]);
    assert!(!a.same_as(&b));
}

#[test]
fn same_as_sees_added_or_removed_key() {
    let a = snap(&[("card0-DP-1", "connected")]);
    let b = snap(&[("card0-DP-1", "connected"), ("card0-HDMI-1", "connected")]);
    assert!(!a.same_as(&b));
    assert!(!b.same_as(&a));
    assert!(ConnectorSnapshot::new().same_as(&ConnectorSnapshot::new()));
    assert!(!ConnectorSnapshot::new().same_as(&a));
}

#[test]
fn sample_skips_directory_without_status() {
    let listing = vec![
        entry("card0-DP-1", Some("connected\n")),
        entry("card0", None),
        entry("card0-HDMI-1", Some("disconnected\n")),
    ];
    let s = build_snapshot(&listing);
    assert_eq!(s.status_of(&"card0".to_string()), None);
    assert_eq!(s.status_of(&"card0-DP-1".to_string()), Some(&"connected\n".to_string()));
    assert!(s.same_as(&snap(&[("card0-DP-1", "connected\n"), ("card0-HDMI-1", "disconnected\n")])));
}

#[test]
fn sample_of_empty_listing_is_empty() {
    assert!(build_snapshot(&Vec::new()).same_as(&ConnectorSnapshot::new()));
}

#[test]
fn sample_twice_of_static_listing_is_equal() {
    let first = vec![
        entry("card0-DP-1", Some("connected")),
        entry("card0-HDMI-1", Some("disconnected")),
        entry("version", None),
    ];
    let second = vec![
        entry("version", None),
        entry("card0-HDMI-1", Some("disconnected")),
        entry("card0-DP-1", Some("connected")),
    ];
    assert!(build_snapshot(&first).same_as(&build_snapshot(&second)));
    assert!(build_snapshot(&first).same_as(&build_snapshot(&first)));
}
