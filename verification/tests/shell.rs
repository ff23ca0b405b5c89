use dsh_desktop::service::{ServiceError, ServiceHandle};
use dsh_desktop::shell::{ShellAction, ShellState, RESTART_DELAY_MS};

fn handle(pid: u32, url: &str) -> ServiceHandle {
    ServiceHandle { pid, url: Some(url.to_string()) }
}

fn watched(url: &str) -> Vec<ShellAction> {
    vec![ShellAction::Navigate(url.to_string()), ShellAction::Watch]
}

fn stop_then_exit(pid: u32) -> Vec<ShellAction> {
    vec![ShellAction::StopService { pid }, ShellAction::Exit { code: 0 }]
}

fn exit_only() -> Vec<ShellAction> {
    vec![ShellAction::Exit { code: 0 }]
}

/// A shell whose service, process 42, is up.
fn running() -> ShellState {
    let mut state = ShellState::new();
    state.service_spawned(42);
    state.service_launched(Ok(handle(42, "http://a")));
    state
}

#[test]
fn a_launch_navigates_and_watches() {
    let mut state = ShellState::new();
    assert_eq!(
        state,
        ShellState { service: None, starting: None, stopping: None, quitting: false }
    );
    assert!(state.may_spawn());
    assert_eq!(state.service_spawned(42), vec![]);
    assert_eq!(state.starting, Some(42));
    assert_eq!(state.service_launched(Ok(handle(42, "http://a"))), watched("http://a"));
    assert_eq!(state.service, Some(handle(42, "http://a")));
    assert_eq!(state.starting, None);
    assert!(!state.quitting);
}

#[test]
fn a_launch_without_a_url_only_watches() {
    let mut state = ShellState::new();
    let actions = state.service_launched(Ok(ServiceHandle { pid: 42, url: None }));
    assert_eq!(actions, vec![ShellAction::Watch]);
}

#[test]
fn a_failed_launch_is_reported() {
    let mut state = ShellState::new();
    state.service_spawned(42);
    let actions = state.service_launched(Err(ServiceError::ExitedBeforeReady { code: None }));
    let error = ServiceError::ExitedBeforeReady { code: None };
    assert_eq!(actions, vec![ShellAction::ReportError(error)]);
    assert_eq!(state, ShellState::new());
    let actions = state.service_launched(Err(ServiceError::Spawn("no".to_string())));
    assert_eq!(actions, vec![ShellAction::ReportError(ServiceError::Spawn("no".to_string()))]);
    assert_eq!(state, ShellState::new());
    assert_eq!(state.quit_shell(), exit_only());
}

#[test]
fn a_quit_stops_a_process_that_was_late() {
    let mut state = ShellState::new();
    state.service_spawned(42);
    let error = ServiceError::ReadyTimeout { timeout_ms: 60000 };
    let actions = state.service_launched(Err(ServiceError::ReadyTimeout { timeout_ms: 60000 }));
    assert_eq!(actions, vec![ShellAction::ReportError(error)]);
    assert_eq!(state.starting, Some(42));
    assert_eq!(state.quit_shell(), stop_then_exit(42));
    assert_eq!(state.quit_shell(), exit_only());
}

#[test]
fn a_late_process_that_has_ended_is_not_signalled() {
    let mut state = ShellState::new();
    state.service_spawned(42);
    state.service_launched(Err(ServiceError::ReadyTimeout { timeout_ms: 60000 }));
    state.late_process_exited(43);
    assert_eq!(state.starting, Some(42));
    state.late_process_exited(42);
    assert_eq!(state, ShellState::new());
    assert_eq!(state.quit_shell(), exit_only());
}

#[test]
fn an_unexpected_exit_restarts_once() {
    let mut state = running();
    assert_eq!(state.watch_service(), vec![ShellAction::Backoff { millis: 1000 }]);
    assert_eq!(state.service, None);
    assert_eq!(state.restart_service(), vec![ShellAction::Launch]);
    assert_eq!(state.service_spawned(43), vec![]);
    assert_eq!(state.service_launched(Ok(handle(43, "http://b"))), watched("http://b"));
    assert_eq!(state.service, Some(handle(43, "http://b")));
    assert_eq!(RESTART_DELAY_MS, 1000);
}

#[test]
fn a_quit_stops_the_service_first() {
    let mut state = running();
    assert_eq!(state.quit_shell(), stop_then_exit(42));
    let quit = ShellState { service: None, starting: None, stopping: None, quitting: true };
    assert_eq!(state, quit);
    assert_eq!(state.watch_service(), vec![]);
    assert_eq!(state, quit);
    assert_eq!(state.quit_shell(), exit_only());
    assert!(!state.may_spawn());
}

#[test]
fn a_quit_during_the_backoff_signals_nothing() {
    let mut state = running();
    state.watch_service();
    assert_eq!(state.quit_shell(), exit_only());
    assert_eq!(state.restart_service(), vec![]);
}

#[test]
fn a_quit_during_a_launch_stops_the_process_once() {
    let mut state = running();
    state.watch_service();
    state.restart_service();
    state.service_spawned(43);
    assert_eq!(state.quit_shell(), stop_then_exit(43));
    assert_eq!(state.quit_shell(), exit_only());
    assert_eq!(state.service_launched(Ok(handle(43, "http://b"))), vec![]);
    assert_eq!(state.service, None);
    assert_eq!(state.quit_shell(), exit_only());
}

#[test]
fn a_process_spawned_after_a_quit_is_stopped() {
    let mut state = ShellState::new();
    assert_eq!(state.quit_shell(), exit_only());
    assert_eq!(state.service_spawned(43), vec![ShellAction::StopService { pid: 43 }]);
    assert_eq!(state.starting, None);
    assert_eq!(state.service_launched(Ok(handle(43, "http://b"))), vec![]);
    assert_eq!(state.quit_shell(), exit_only());
}

#[test]
fn a_service_launched_after_a_quit_is_stopped_and_not_held() {
    let mut state = ShellState::new();
    state.quit_shell();
    let actions = state.service_launched(Ok(handle(43, "http://b")));
    assert_eq!(actions, vec![ShellAction::StopService { pid: 43 }]);
    assert_eq!(state.service, None);
    assert_eq!(state.quit_shell(), exit_only());
}

#[test]
fn a_quit_stops_whatever_is_known() {
    let mut state = ShellState {
        service: Some(handle(42, "http://a")),
        starting: Some(43),
        stopping: None,
        quitting: false,
    };
    assert_eq!(
        state.quit_shell(),
        vec![
            ShellAction::StopService { pid: 43 },
            ShellAction::StopService { pid: 42 },
            ShellAction::Exit { code: 0 },
        ]
    );
    assert_eq!((state.service, state.starting), (None, None));
}
