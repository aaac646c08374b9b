use groo::selection::{
    all_running, launchable, parse_pid_lines, preselect, stop_verdict, StopVerdict,
};

#[test]
fn preselects_stopped_services_with_ports() {
    let ports = vec![Some(3000), None, Some(4000)];
    let running = vec![false, false, true];
    assert_eq!(preselect(&ports, &running), vec![true, false, false]);
}

#[test]
fn all_running_cases() {
    assert!(all_running(&vec![true, true]));
    assert!(!all_running(&vec![true, false]));
    assert!(all_running(&Vec::new()));
}

#[test]
fn running_picks_are_dropped() {
    let running = vec![false, true, false];
    assert_eq!(launchable(&vec![0, 1, 2], &running), vec![0, 2]);
    assert!(launchable(&vec![1], &running).is_empty());
}

#[test]
fn stop_verdicts() {
    assert_eq!(stop_verdict(0, false), StopVerdict::NotFound);
    assert_eq!(stop_verdict(2, true), StopVerdict::Stopped);
    assert_eq!(stop_verdict(1, false), StopVerdict::Failed);
}

#[test]
fn pid_lines_of_port_lookup() {
    assert_eq!(parse_pid_lines("123\n  456 \r\nabc\n\n4294967296\n7"), vec![123, 456, 7]);
    assert!(parse_pid_lines("").is_empty());
}
