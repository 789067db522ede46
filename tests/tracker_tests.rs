use rustping::tracker::{Reading, StatusTracker, Transition};

#[test]
fn down_only_at_threshold() {
    let mut t = StatusTracker::new(3);
    t.observe("Router1", Reading::Up, Reading::NotApplicable, 0);
    assert_eq!(t.observe("Router1", Reading::Down, Reading::NotApplicable, 5), Transition::Unchanged);
    assert_eq!(t.observe("Router1", Reading::Down, Reading::NotApplicable, 10), Transition::Unchanged);
    assert_eq!(t.observe("Router1", Reading::Down, Reading::NotApplicable, 15), Transition::BecameDown);
    let st = t.state_of("Router1").unwrap();
    assert_eq!(st.ping, Some(false));
    assert_eq!(st.consecutive_failures, 3);
    assert_eq!(st.changed_at, 15);
}

#[test]
fn down_reported_once_per_episode() {
    let mut t = StatusTracker::new(2);
    let seq = [
        (Reading::Up, Transition::BecameUp),
        (Reading::Down, Transition::Unchanged),
        (Reading::Down, Transition::BecameDown),
        (Reading::Down, Transition::Unchanged),
        (Reading::Down, Transition::Unchanged),
        (Reading::Up, Transition::BecameUp),
        (Reading::Down, Transition::Unchanged),
        (Reading::Down, Transition::BecameDown),
    ];
    let mut now = 0;
    for (r, expected) in seq {
        assert_eq!(t.observe("Switch", r, Reading::NotApplicable, now), expected);
        now += 5;
    }
}

#[test]
fn success_resets_failure_count() {
    let mut t = StatusTracker::new(8);
    t.observe("A", Reading::Down, Reading::NotApplicable, 1);
    t.observe("A", Reading::Down, Reading::NotApplicable, 2);
    assert_eq!(t.state_of("A").unwrap().consecutive_failures, 2);
    assert_eq!(t.observe("A", Reading::Up, Reading::NotApplicable, 3), Transition::BecameUp);
    assert_eq!(t.state_of("A").unwrap().consecutive_failures, 0);
}

#[test]
fn blips_below_threshold_leave_status_and_change_time() {
    let mut t = StatusTracker::new(8);
    t.observe("A", Reading::Up, Reading::NotApplicable, 100);
    for k in 1..8u64 {
        assert_eq!(t.observe("A", Reading::Down, Reading::NotApplicable, 100 + k), Transition::Unchanged);
    }
    let st = t.state_of("A").unwrap();
    assert_eq!(st.ping, Some(true));
    assert_eq!(st.changed_at, 100);
    assert_eq!(st.last_update, 107);
}

#[test]
fn http_change_is_reported() {
    let mut t = StatusTracker::new(1);
    t.observe("Web", Reading::Up, Reading::Up, 0);
    assert_eq!(t.observe("Web", Reading::Up, Reading::Down, 5), Transition::HttpChanged(false));
    assert_eq!(t.observe("Web", Reading::Up, Reading::Down, 10), Transition::Unchanged);
    assert_eq!(t.observe("Web", Reading::Up, Reading::Up, 15), Transition::HttpChanged(true));
}

#[test]
fn unknown_device_starts_fresh() {
    let mut t = StatusTracker::new(2);
    assert!(t.state_of("new").is_none());
    assert_eq!(t.observe("new", Reading::NotApplicable, Reading::NotApplicable, 42), Transition::Unchanged);
    let st = t.state_of("new").unwrap();
    assert_eq!(st.ping, None);
    assert_eq!(st.last_update, 42);
    assert_eq!(t.get_threshold(), 2);
}

#[test]
fn one_down_report_per_long_failing_run() {
    let mut t = StatusTracker::new(2);
    let pings = [false, false, false, true, false, true, false, false, true, false, false, false, false];
    let mut downs = 0;
    for (k, up) in pings.iter().enumerate() {
        let r = if *up { Reading::Up } else { Reading::Down };
        if t.observe("R", r, Reading::NotApplicable, k as u64) == Transition::BecameDown {
            downs += 1;
        }
    }
    assert_eq!(downs, 3);
}
