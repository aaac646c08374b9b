use groo::supervisor::{Escalation, Phase, StopRequest, StopSignal, Supervisor};

fn names(v: &[&str]) -> Vec<String> {
    v.iter().map(|s| s.to_string()).collect()
}

#[test]
fn failed_spawns_leave_the_rest_supervised() {
    let s = Supervisor::launch(&names(&["a", "b", "c"]), &vec![true, false, true]);
    assert_eq!(s.names, names(&["a", "c"]));
    assert_eq!(s.phase, Phase::Running);
    let none = Supervisor::launch(&names(&["a"]), &vec![false]);
    assert!(none.names.is_empty());
}

#[test]
fn failing_only_service_ends_session_with_error() {
    let mut s = Supervisor::launch(&names(&["apps:web"]), &vec![true]);
    let report = s.on_exit(0, false, "exit status: 1");
    assert_eq!(report.name, "apps:web");
    assert!(report.is_error);
    assert_eq!(report.message, "Process exited with status: exit status: 1");
    assert!(s.is_finished());
}

#[test]
fn clean_exit_is_reported_plainly() {
    let mut s = Supervisor::launch(&names(&["a", "b"]), &vec![true, true]);
    let report = s.on_exit(1, true, "exit status: 0");
    assert_eq!(report.name, "b");
    assert!(!report.is_error);
    assert_eq!(report.message, "Process exited");
    assert!(!s.is_finished());
    assert_eq!(s.names, names(&["a"]));
}

#[test]
fn cancellation_stops_both_and_waits_for_both() {
    let mut s = Supervisor::launch(&names(&["a", "b"]), &vec![true, true]);
    let to_stop = s.on_cancel();
    assert_eq!(
        to_stop,
        vec![
            StopRequest { index: 0, signal: StopSignal::Graceful },
            StopRequest { index: 1, signal: StopSignal::Graceful },
        ]
    );
    assert_eq!(s.phase, Phase::ShuttingDown);
    assert!(!s.is_finished());
    s.on_reaped(0);
    assert!(!s.is_finished());
    assert_eq!(s.names, names(&["b"]));
    s.on_reaped(0);
    assert!(s.is_finished());
}

#[test]
fn escalation_steps() {
    assert!(Escalation::start().observe(false).succeeded());
    let forced = Escalation::start().observe(true);
    assert_eq!(forced, Escalation::Forced);
    assert!(!forced.succeeded());
    assert!(forced.observe(false).succeeded());
    assert_eq!(forced.observe(true), Escalation::Failed);
}
