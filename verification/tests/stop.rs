use dsh_desktop::stop::{
    alive, stop_service, Signal, StopAction, StopEvent, StopPhase, POLL_INTERVAL_MS, TERM_GRACE_MS,
};

/// Drives a stop of process 42. `takes_term` says which targets take a `TERM`,
/// and the processes are gone once the clock has reached `gone_at`.
fn drive(takes_term: &[i32], gone_at: u64) -> (Vec<(i32, Signal)>, u64, usize) {
    let mut sent: Vec<(i32, Signal)> = Vec::new();
    let mut clock: u64 = 0;
    let mut answers: usize = 0;
    let mut state = stop_service(42);
    loop {
        let event = match state.action() {
            StopAction::Send { target, signal } => {
                sent.push((target, signal));
                StopEvent::Delivered(takes_term.contains(&target))
            }
            StopAction::ReadClock => StopEvent::Elapsed(clock),
            StopAction::Probe { .. } => StopEvent::Alive(clock < gone_at),
            StopAction::Sleep { millis } => {
                clock += millis;
                StopEvent::Slept
            }
            StopAction::Finished => return (sent, clock, answers),
        };
        state.advance(event);
        answers += 1;
    }
}

#[test]
fn a_group_that_goes_is_not_killed() {
    let (sent, clock, _) = drive(&[-42, 42], 250);
    assert_eq!(sent, vec![(-42, Signal::Term)]);
    assert_eq!(clock, 300);
}

#[test]
fn a_group_that_stays_is_killed_after_the_grace_period() {
    let (sent, clock, answers) = drive(&[-42, 42], u64::MAX);
    assert_eq!(sent, vec![(-42, Signal::Term), (-42, Signal::Kill), (42, Signal::Kill)]);
    assert_eq!(clock, 3000);
    assert!(answers <= 125);
}

#[test]
fn without_a_group_the_process_is_stopped() {
    let (sent, clock, _) = drive(&[42], 100);
    assert_eq!(sent, vec![(-42, Signal::Term), (42, Signal::Term)]);
    assert_eq!(clock, 100);
    let (sent, clock, answers) = drive(&[42], u64::MAX);
    assert_eq!(sent, vec![(-42, Signal::Term), (42, Signal::Term), (42, Signal::Kill)]);
    assert_eq!(clock, 3000);
    assert!(answers <= 125);
}

#[test]
fn nothing_there_is_a_no_op() {
    let (sent, clock, answers) = drive(&[], u64::MAX);
    assert_eq!(sent, vec![(-42, Signal::Term), (42, Signal::Term)]);
    assert_eq!(clock, 0);
    assert_eq!(answers, 2);
}

#[test]
fn both_the_group_and_the_process_must_be_gone() {
    let mut state = stop_service(7);
    state.advance(StopEvent::Delivered(true));
    assert_eq!(state.action(), StopAction::ReadClock);
    state.advance(StopEvent::Elapsed(2999));
    assert_eq!(state.action(), StopAction::Probe { target: -7 });
    state.advance(StopEvent::Alive(false));
    assert_eq!(state.action(), StopAction::Probe { target: 7 });
    state.advance(StopEvent::Alive(true));
    assert_eq!(state.action(), StopAction::Sleep { millis: 100 });
    state.advance(StopEvent::Slept);
    state.advance(StopEvent::Elapsed(3000));
    assert_eq!(state.action(), StopAction::Send { target: -7, signal: Signal::Kill });
    state.advance(StopEvent::Delivered(false));
    assert_eq!(state.action(), StopAction::Send { target: 7, signal: Signal::Kill });
    state.advance(StopEvent::Delivered(false));
    assert_eq!(state.action(), StopAction::Finished);
}

#[test]
fn a_wrong_answer_changes_nothing() {
    let mut state = stop_service(7);
    state.advance(StopEvent::Slept);
    state.advance(StopEvent::Alive(false));
    state.advance(StopEvent::Elapsed(9000));
    assert_eq!(state, stop_service(7));
    state.advance(StopEvent::Delivered(false));
    state.advance(StopEvent::Delivered(false));
    assert_eq!(state.phase, StopPhase::Finished);
    state.advance(StopEvent::Delivered(true));
    assert_eq!(state.phase, StopPhase::Finished);
}

#[test]
fn what_may_not_be_signalled_is_alive() {
    assert!(alive(0, false));
    assert!(alive(-1, true));
    assert!(!alive(-1, false));
}

#[test]
fn pids_become_signal_targets() {
    assert_eq!((stop_service(1).leader, stop_service(1).group), (1, -1));
    assert_eq!(stop_service(0x7fff_ffff).leader, i32::MAX);
    assert_eq!(stop_service(0x7fff_ffff).group, -i32::MAX);
    assert_eq!((stop_service(u32::MAX).leader, stop_service(u32::MAX).group), (-1, 1));
    assert_eq!(stop_service(0x8000_0001).leader, 0x8000_0001u32 as i32);
    assert_eq!((TERM_GRACE_MS, POLL_INTERVAL_MS), (3000, 100));
}
