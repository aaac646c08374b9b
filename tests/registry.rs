use groo::registry::{is_service_running, Liveness, State};

fn demo_state() -> State {
    let mut state = State::new();
    state.add_service("demo", "/x".to_string(), "api", 123, Some(4000));
    state
}

fn service_names(state: &State, project: &str) -> Vec<String> {
    let p = state.get_project(project).expect("project present");
    p.services.iter().map(|(n, _)| n.clone()).collect()
}

#[test]
fn clean_drops_dead_project() {
    let mut state = demo_state();
    let obs = Liveness::new();
    state.clean_stale_pids(&obs);
    assert!(state.projects.is_empty());
    assert!(state.get_project("demo").is_none());
}

#[test]
fn occupied_port_counts_as_running_whatever_the_pid() {
    let mut obs = Liveness::new();
    obs.mark_port_busy(4000);
    obs.mark_pid_alive(999);
    assert!(is_service_running(Some(4000), 123, &obs));
    assert!(is_service_running(Some(4000), 999, &obs));
    assert!(!is_service_running(Some(4001), 999, &obs));
    let mut state = demo_state();
    state.clean_stale_pids(&obs);
    assert_eq!(service_names(&state, "demo"), vec!["api".to_string()]);
}

#[test]
fn pid_decides_without_port() {
    let mut obs = Liveness::new();
    obs.mark_pid_alive(77);
    assert!(is_service_running(None, 77, &obs));
    assert!(!is_service_running(None, 78, &obs));
}

#[test]
fn clean_twice_is_clean_once() {
    let mut state = State::new();
    state.add_service("a", "/a".to_string(), "web", 1, Some(3000));
    state.add_service("a", "/a".to_string(), "api", 2, Some(3001));
    state.add_service("b", "/b".to_string(), "worker", 3, None);
    state.add_service("c", "/c".to_string(), "gone", 4, None);
    let mut obs = Liveness::new();
    obs.mark_port_busy(3000);
    obs.mark_pid_alive(3);
    state.clean_stale_pids(&obs);
    let once = format!("{:?}", state);
    state.clean_stale_pids(&obs);
    assert_eq!(format!("{:?}", state), once);
    assert_eq!(service_names(&state, "a"), vec!["web".to_string()]);
    assert_eq!(service_names(&state, "b"), vec!["worker".to_string()]);
    assert!(state.get_project("c").is_none());
}

#[test]
fn add_service_overwrites_record_and_keeps_root() {
    let mut state = State::new();
    state.add_service("p", "/first".to_string(), "web", 10, None);
    state.add_service("p", "/second".to_string(), "web", 11, Some(8080));
    let p = state.get_project("p").unwrap();
    assert_eq!(p.path, "/first");
    assert_eq!(p.services.len(), 1);
    assert_eq!(p.services[0].1.pid, 11);
    assert_eq!(p.services[0].1.port, Some(8080));
}

#[test]
fn remove_service_drops_empty_project() {
    let mut state = State::new();
    state.add_service("p", "/p".to_string(), "web", 1, None);
    state.add_service("p", "/p".to_string(), "api", 2, None);
    state.remove_service("p", "web");
    assert_eq!(service_names(&state, "p"), vec!["api".to_string()]);
    state.remove_service("p", "missing");
    assert_eq!(service_names(&state, "p"), vec!["api".to_string()]);
    state.remove_service("p", "api");
    assert!(state.get_project("p").is_none());
    state.remove_service("nobody", "api");
    assert!(state.projects.is_empty());
}

#[test]
fn remove_project_forgets_all_services() {
    let mut state = State::new();
    state.add_service("p", "/p".to_string(), "web", 1, None);
    state.add_service("q", "/q".to_string(), "web", 2, None);
    state.remove_project("p");
    assert!(state.get_project("p").is_none());
    assert!(state.get_project("q").is_some());
    state.remove_project("p");
    assert_eq!(state.projects.len(), 1);
}
