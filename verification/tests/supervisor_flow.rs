use mcp_supervisor::supervisor::Acknowledgement;
use mcp_supervisor::supervisor::ManagedProcessState;
use mcp_supervisor::supervisor::SupervisorError;
use mcp_supervisor::supervisor::observe_exit;
use mcp_supervisor::supervisor::start_commit;
use mcp_supervisor::supervisor::start_precheck;
use mcp_supervisor::supervisor::stop_commit;
use mcp_supervisor::supervisor::stop_precheck;

#[test]
fn fresh_state_tracks_nothing() {
    let state = ManagedProcessState::new();
    assert!(!state.is_tracked());
    assert_eq!(state.tracked_pid(), None);
}

#[test]
fn start_with_missing_binary_returns_not_found_and_leaves_state_absent() {
    let state = ManagedProcessState::new();
    let r = start_precheck(&state, false);
    assert_eq!(r, Err(SupervisorError::NotFound));
    assert!(!state.is_tracked());
}

#[test]
fn start_then_second_start_then_stop_then_stop() {
    let mut state = ManagedProcessState::new();

    assert_eq!(start_precheck(&state, true), Ok(()));
    let ack = start_commit(&mut state, Ok(4711)).unwrap();
    assert_eq!(ack, Acknowledgement::Started);
    assert_eq!(state.tracked_pid(), Some(4711));

    // An immediate second start is refused while the first is tracked.
    assert_eq!(start_precheck(&state, true), Err(SupervisorError::AlreadyRunning));

    // Stop succeeds and clears the record.
    assert_eq!(stop_precheck(&state), Ok(4711));
    let ack = stop_commit(&mut state, Ok(())).unwrap();
    assert_eq!(ack, Acknowledgement::Stopped);
    assert!(!state.is_tracked());

    // A second stop finds nothing to stop.
    assert_eq!(stop_precheck(&state), Err(SupervisorError::NotRunning));
}

#[test]
fn failed_spawn_surfaces_launch_failed_and_records_nothing() {
    let mut state = ManagedProcessState::new();
    assert_eq!(start_precheck(&state, true), Ok(()));
    let r = start_commit(&mut state, Err(String::from("no such file")));
    assert_eq!(r, Err(SupervisorError::LaunchFailed(String::from("no such file"))));
    assert!(!state.is_tracked());
}

#[test]
fn failed_termination_signal_keeps_the_record() {
    let mut state = ManagedProcessState::new();
    start_commit(&mut state, Ok(99)).unwrap();
    let r = stop_commit(&mut state, Err(String::from("permission denied")));
    assert_eq!(
        r,
        Err(SupervisorError::TerminationFailed(String::from("permission denied")))
    );
    assert_eq!(state.tracked_pid(), Some(99));
}

#[test]
fn stop_on_untracked_state_fails_and_does_not_mutate() {
    let mut state = ManagedProcessState::new();
    assert_eq!(stop_precheck(&state), Err(SupervisorError::NotRunning));
    assert!(!state.is_tracked());
    // The commit path is never reached for an untracked state; clearing an
    // untracked record directly is still a no-op.
    state.clear();
    assert!(!state.is_tracked());
}

#[test]
fn exit_watcher_emits_one_notification_with_the_observed_code() {
    let mut state = ManagedProcessState::new();
    start_commit(&mut state, Ok(7)).unwrap();
    let n = observe_exit(&mut state, Some(0));
    assert_eq!(n.exit_code, Some(0));
    assert!(!state.is_tracked());
}

#[test]
fn exit_watcher_works_after_stop_already_cleared() {
    let mut state = ManagedProcessState::new();
    start_commit(&mut state, Ok(7)).unwrap();
    stop_commit(&mut state, Ok(())).unwrap();
    // The watcher observes the forced exit after stop cleared the record:
    // clearing twice is harmless and the notification still fires once.
    let n = observe_exit(&mut state, None);
    assert_eq!(n.exit_code, None);
    assert!(!state.is_tracked());
}

#[test]
fn clearing_is_idempotent() {
    let mut state = ManagedProcessState::new();
    state.record(31);
    state.clear();
    assert!(!state.is_tracked());
    state.clear();
    assert!(!state.is_tracked());
}

#[test]
fn lock_failure_is_its_own_error() {
    // The guard around the shared state is owned by the unverified shell;
    // the error it reports is distinct from every supervisor refusal.
    let e = SupervisorError::LockFailed;
    assert_ne!(e, SupervisorError::NotRunning);
    assert_ne!(e, SupervisorError::AlreadyRunning);
}
