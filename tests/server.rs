use embedded_recruitment_task::server::{
    on_accept, on_stop, stop_wait_step, AcceptOutcome, AcceptStep, Registry, StopStep, StopWait,
    POLL_INTERVAL_MS, STOP_TIMEOUT_MS,
};

#[test]
fn accept_outcomes() {
    assert_eq!(on_accept(AcceptOutcome::Accepted), AcceptStep::Spawn);
    assert_eq!(on_accept(AcceptOutcome::WouldBlock), AcceptStep::Wait);
    assert_eq!(on_accept(AcceptOutcome::Failed), AcceptStep::Report);
}

#[test]
fn second_stop_is_a_noop() {
    let (first, after) = on_stop(true);
    assert_eq!(first, StopStep::Signal);
    assert!(!after);
    assert_eq!(on_stop(after), (StopStep::AlreadyStopped, false));
}

#[test]
fn stop_on_never_run_server_is_a_noop() {
    assert_eq!(on_stop(false), (StopStep::AlreadyStopped, false));
}

#[test]
fn stop_wait_rounds() {
    assert_eq!(stop_wait_step(false, 0), StopWait::Stopped);
    assert_eq!(stop_wait_step(false, 9000), StopWait::Stopped);
    assert_eq!(stop_wait_step(true, 100), StopWait::Sleep);
    assert_eq!(stop_wait_step(true, STOP_TIMEOUT_MS), StopWait::Sleep);
    assert_eq!(stop_wait_step(true, STOP_TIMEOUT_MS + 1), StopWait::TimedOut);
    assert_eq!(POLL_INTERVAL_MS, 100);
    assert_eq!(STOP_TIMEOUT_MS, 5000);
}

#[test]
fn registry_drains_every_worker() {
    let mut reg: Registry<u32> = Registry::new();
    assert_eq!(reg.len(), 0);
    for i in 0..50 {
        reg.push(i);
    }
    assert_eq!(reg.len(), 50);
    let all = reg.drain();
    assert_eq!(all.len(), 50);
    assert_eq!(all[0], 49);
    assert_eq!(all[49], 0);
    assert_eq!(reg.len(), 0);
    assert!(reg.drain().is_empty());
}
