use axdd::apply::{apply, tick, Action};
use axdd::detect::{detect, TransitionResult};
use axdd::registry::DisplayConfig;
use axdd::snapshot::ConnectorSnapshot;

fn snap(pairs: &[(&str, &str)]) -> ConnectorSnapshot {
    let mut s = ConnectorSnapshot::new();
    for (k, v) in pairs {
        s.insert(k.to_string(), v.to_string());
    }
    s
}

fn display(name: &str, script: &str) -> DisplayConfig {
    DisplayConfig::new(name.to_string(), script.to_string())
}

fn changed(r: TransitionResult) -> Vec<DisplayConfig> {
    match r {
        TransitionResult::Changed(m) => m,
        TransitionResult::Unchanged => panic!("expected a change"),
    }
}

#[test]
fn equal_snapshots_are_unchanged_for_any_registry() {
    let a = snap(&[("card0-DP-1", "connected"), ("card0-HDMI-1", "disconnected")]);
    let b = snap(&[("card0-HDMI-1", "disconnected"), ("card0-DP-1", "connected")]);
    assert!(matches!(detect(&a, &b, &Vec::new()), TransitionResult::Unchanged));
    let reg = vec![display("DP-1", "a.sh"), display("HDMI-1", "b.sh")];
    assert!(matches!(detect(&a, &b, &reg), TransitionResult::Unchanged));
}

#[test]
fn unknown_change_matches_nothing() {
    let a = snap(&[("card0-HDMI-1", "disconnected")]);
    let b = snap(&[("card0-HDMI-1", "connected")]);
    let reg = vec![display("DP-1", "a.sh"), display("DP-2", "b.sh")];
    assert!(changed(detect(&a, &b, &reg)).is_empty());
}

#[test]
fn status_change_counts_as_change() {
    let a = snap(&[("card0-DP-1", "disconnected")]);
    let b = snap(&[("card0-DP-1", "connected")]);
    let reg = vec![display("DP-1", "a.sh")];
    assert_eq!(changed(detect(&a, &b, &reg)), vec![display("DP-1", "a.sh")]);
}

#[test]
fn dp1_on_card0_is_matched() {
    let a = snap(&[("card0-HDMI-1", "connected")]);
    let b = snap(&[("card0-HDMI-1", "connected"), ("card0-DP-1", "connected")]);
    let reg = vec![display("HDMI-2", "x.sh"), display("DP-1", "layout1.sh")];
    assert_eq!(changed(detect(&a, &b, &reg)), vec![display("DP-1", "layout1.sh")]);
}

#[test]
fn several_displays_fire_in_registry_order() {
    let a = snap(&[]);
    let b = snap(&[("card0-HDMI-1", "connected"), ("card1-DP-1", "connected")]);
    let reg = vec![display("DP-1", "one.sh"), display("VGA-1", "v.sh"), display("HDMI-1", "two.sh")];
    assert_eq!(
        changed(detect(&a, &b, &reg)),
        vec![display("DP-1", "one.sh"), display("HDMI-1", "two.sh")]
    );
}

#[test]
fn empty_registry_change_carries_nothing() {
    let a = snap(&[("card0-DP-1", "connected")]);
    let b = snap(&[]);
    assert!(changed(detect(&a, &b, &Vec::new())).is_empty());
}

#[test]
fn new_display_runs_autoconfigure_then_its_layout() {
    let reg = vec![display("DP-1", "layout1.sh")];
    let tick1 = snap(&[("card0-HDMI-1", "connected")]);
    let tick2 = snap(&[("card0-HDMI-1", "connected"), ("card0-DP-1", "connected")]);
    let result = detect(&tick1, &tick2, &reg);
    let actions = apply(&result);
    assert_eq!(changed(result), vec![display("DP-1", "layout1.sh")]);
    assert_eq!(actions.len(), 3);
    assert!(matches!(actions[0], Action::Autoconfigure));
    match &actions[1] {
        Action::RunLayout(d) => {
            assert_eq!(d.name, "DP-1");
            assert_eq!(d.layout_script, "layout1.sh");
        }
        other => panic!("unexpected action {:?}", other),
    }
    assert!(matches!(actions[2], Action::Resample));
}

#[test]
fn unchanged_snapshot_runs_nothing() {
    let reg = vec![display("DP-1", "layout1.sh")];
    let s = snap(&[("card0-HDMI-1", "connected"), ("card0-DP-1", "connected")]);
    let again = snap(&[("card0-HDMI-1", "connected"), ("card0-DP-1", "connected")]);
    assert!(tick(&s, &again, &reg).is_empty());
    assert!(apply(&TransitionResult::Unchanged).is_empty());
}

#[test]
fn empty_registry_change_runs_only_autoconfigure() {
    let a = snap(&[("card0-HDMI-1", "disconnected")]);
    let b = snap(&[("card0-HDMI-1", "connected")]);
    let actions = tick(&a, &b, &Vec::new());
    assert_eq!(actions.len(), 2);
    assert!(matches!(actions[0], Action::Autoconfigure));
    assert!(matches!(actions[1], Action::Resample));
}

#[test]
fn two_matched_displays_plan_six_steps() {
    let reg = vec![display("DP-1", "one.sh"), display("HDMI-1", "two.sh")];
    let a = snap(&[]);
    let b = snap(&[("card0-DP-1", "connected"), ("card0-HDMI-1", "connected")]);
    let actions = tick(&a, &b, &reg);
    assert_eq!(actions.len(), 6);
    assert!(matches!(actions[0], Action::Autoconfigure));
    assert!(matches!(&actions[1], Action::RunLayout(d) if d.layout_script == "one.sh"));
    assert!(matches!(actions[2], Action::Resample));
    assert!(matches!(actions[3], Action::Autoconfigure));
    assert!(matches!(&actions[4], Action::RunLayout(d) if d.layout_script == "two.sh"));
    assert!(matches!(actions[5], Action::Resample));
}

#[test]
fn handled_unknown_change_does_not_fire_again() {
    let reg = vec![display("DP-1", "layout1.sh")];
    let baseline = snap(&[("card0-HDMI-1", "disconnected")]);
    let sample = snap(&[("card0-HDMI-1", "connected")]);
    let actions = tick(&baseline, &sample, &reg);
    assert!(matches!(actions.last(), Some(Action::Resample)));
    // The loop takes the resample as its new baseline; sysfs stays the same.
    let next_baseline = snap(&[("card0-HDMI-1", "connected")]);
    let again = snap(&[("card0-HDMI-1", "connected")]);
    assert!(tick(&next_baseline, &again, &reg).is_empty());
}
