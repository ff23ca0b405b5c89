//! Stopping a running service and its process group: `TERM` first, `KILL`
//! when the grace period is over.
//!
//! The decisions are a state machine. [`stop_service`] gives its first state,
//! [`StopState::action`] says what to do next, and [`StopState::advance`]
//! takes the answer. Whoever drives the machine sends the signals, reads the
//! clock and sleeps.

use vstd::prelude::*;

verus! {

/// Grace period between `TERM` and `KILL`, in milliseconds.
pub const TERM_GRACE_MS: u64 = 3000;

/// Pause between two looks at whether the processes still exist, in
/// milliseconds.
pub const POLL_INTERVAL_MS: u64 = 100;

/// The signals that a stop sends.
#[derive(Debug, Clone, Copy, PartialEq, Eq, Structural)]
pub enum Signal {
    Term,
    Kill,
}

/// What to do next.
#[derive(Debug, Clone, Copy, PartialEq, Eq, Structural)]
pub enum StopAction {
    /// Send `signal` to `target` (a process, or a process group when
    /// negative) and report whether it was delivered.
    Send { target: i32, signal: Signal },
    /// Report how many whole milliseconds have passed since the `TERM` signal
    /// was delivered.
    ReadClock,
    /// Report whether `target` still exists.
    Probe { target: i32 },
    /// Sleep, then report back.
    Sleep { millis: u64 },
    /// Nothing is left to do.
    Finished,
}

/// The answer to an action.
#[derive(Debug, Clone, Copy, PartialEq, Eq, Structural)]
pub enum StopEvent {
    /// Answers `Send`: whether the signal was delivered.
    Delivered(bool),
    /// Answers `ReadClock`: milliseconds since `TERM` was delivered.
    Elapsed(u64),
    /// Answers `Probe`: whether the target exists.
    Alive(bool),
    /// Answers `Sleep`.
    Slept,
}

/// Where a stop stands. `group` tells a stop of the whole process group from
/// one that fell back to the single process.
#[derive(Debug, Clone, Copy, PartialEq, Eq, Structural)]
pub enum StopPhase {
    TermGroup,
    TermLeader,
    Clock { group: bool },
    ProbeGroup,
    ProbeLeader { group: bool },
    Nap { group: bool },
    KillGroup,
    KillLeader,
    Finished,
}

/// A stop in progress.
#[derive(Debug, Clone, Copy, PartialEq, Eq, Structural)]
pub struct StopState {
    /// The service process.
    pub leader: i32,
    /// Its process group, as a signal target.
    pub group: i32,
    pub phase: StopPhase,
}

/// A process id as the signed number that signals take: its 32 bits read in
/// two's complement.
pub open spec fn signed_pid(pid: u32) -> int {
    if pid < 0x8000_0000 {
        pid as int
    } else {
        pid - 0x1_0000_0000
    }
}

/// Whether a probed target exists: `returned` is what sending it no signal
/// returned, and `not_permitted` whether that failed because the target may
/// not be signalled.
pub fn alive(returned: i32, not_permitted: bool) -> (b: bool)
    ensures
        b == (returned == 0 || not_permitted),
{
    returned == 0 || not_permitted
}

impl StopState {
    /// The action that is due.
    pub open spec fn due(self) -> StopAction {
        match self.phase {
            StopPhase::TermGroup => StopAction::Send { target: self.group, signal: Signal::Term },
            StopPhase::TermLeader => StopAction::Send { target: self.leader, signal: Signal::Term },
            StopPhase::Clock { .. } => StopAction::ReadClock,
            StopPhase::ProbeGroup => StopAction::Probe { target: self.group },
            StopPhase::ProbeLeader { .. } => StopAction::Probe { target: self.leader },
            StopPhase::Nap { .. } => StopAction::Sleep { millis: POLL_INTERVAL_MS },
            StopPhase::KillGroup => StopAction::Send { target: self.group, signal: Signal::Kill },
            StopPhase::KillLeader => StopAction::Send { target: self.leader, signal: Signal::Kill },
            StopPhase::Finished => StopAction::Finished,
        }
    }

    /// Whether `event` is an answer to the action that is due.
    pub open spec fn answered_by(self, event: StopEvent) -> bool {
        match self.due() {
            StopAction::Send { .. } => event is Delivered,
            StopAction::ReadClock => event is Elapsed,
            StopAction::Probe { .. } => event is Alive,
            StopAction::Sleep { .. } => event is Slept,
            StopAction::Finished => false,
        }
    }

    /// The phase that follows on `event`. An event that does not answer the
    /// action that is due leaves the phase as it is.
    pub open spec fn next_phase(self, event: StopEvent) -> StopPhase {
        match (self.phase, event) {
            (StopPhase::TermGroup, StopEvent::Delivered(ok)) => if ok {
                StopPhase::Clock { group: true }
            } else {
                StopPhase::TermLeader
            },
            (StopPhase::TermLeader, StopEvent::Delivered(ok)) => if ok {
                StopPhase::Clock { group: false }
            } else {
                StopPhase::Finished
            },
            (StopPhase::Clock { group }, StopEvent::Elapsed(millis)) => if millis < TERM_GRACE_MS {
                if group {
                    StopPhase::ProbeGroup
                } else {
                    StopPhase::ProbeLeader { group: false }
                }
            } else {
                if group {
                    StopPhase::KillGroup
                } else {
                    StopPhase::KillLeader
                }
            },
            (StopPhase::ProbeGroup, StopEvent::Alive(alive)) => if alive {
                StopPhase::Nap { group: true }
            } else {
                StopPhase::ProbeLeader { group: true }
            },
            (StopPhase::ProbeLeader { group }, StopEvent::Alive(alive)) => if alive {
                StopPhase::Nap { group }
            } else {
                StopPhase::Finished
            },
            (StopPhase::Nap { group }, StopEvent::Slept) => StopPhase::Clock { group },
            (StopPhase::KillGroup, StopEvent::Delivered(_)) => StopPhase::KillLeader,
            (StopPhase::KillLeader, StopEvent::Delivered(_)) => StopPhase::Finished,
            (phase, _) => phase,
        }
    }

    /// The state that follows on `event`.
    pub open spec fn next(self, event: StopEvent) -> StopState {
        StopState { leader: self.leader, group: self.group, phase: self.next_phase(event) }
    }

    /// The action that is due.
    pub fn action(&self) -> (action: StopAction)
        ensures
            action == self.due(),
    {
        match self.phase {
            StopPhase::TermGroup => StopAction::Send { target: self.group, signal: Signal::Term },
            StopPhase::TermLeader => StopAction::Send { target: self.leader, signal: Signal::Term },
            StopPhase::Clock { .. } => StopAction::ReadClock,
            StopPhase::ProbeGroup => StopAction::Probe { target: self.group },
            StopPhase::ProbeLeader { .. } => StopAction::Probe { target: self.leader },
            StopPhase::Nap { .. } => StopAction::Sleep { millis: POLL_INTERVAL_MS },
            StopPhase::KillGroup => StopAction::Send { target: self.group, signal: Signal::Kill },
            StopPhase::KillLeader => StopAction::Send { target: self.leader, signal: Signal::Kill },
            StopPhase::Finished => StopAction::Finished,
        }
    }

    /// Takes the answer to the action that is due. An event that does not
    /// answer it changes nothing, so the same action stays due.
    pub fn advance(&mut self, event: StopEvent)
        ensures
            *final(self) == old(self).next(event),
            !old(self).answered_by(event) ==> *final(self) == *old(self),
    {
        let phase = match (self.phase, event) {
            (StopPhase::TermGroup, StopEvent::Delivered(true)) => StopPhase::Clock { group: true },
            (StopPhase::TermGroup, StopEvent::Delivered(false)) => StopPhase::TermLeader,
            (StopPhase::TermLeader, StopEvent::Delivered(true)) => {
                StopPhase::Clock { group: false }
            },
            (StopPhase::TermLeader, StopEvent::Delivered(false)) => StopPhase::Finished,
            (StopPhase::Clock { group }, StopEvent::Elapsed(millis)) => {
                let over = millis >= TERM_GRACE_MS;
                match (over, group) {
                    (true, true) => StopPhase::KillGroup,
                    (true, false) => StopPhase::KillLeader,
                    (false, true) => StopPhase::ProbeGroup,
                    (false, false) => StopPhase::ProbeLeader { group: false },
                }
            },
            (StopPhase::ProbeGroup, StopEvent::Alive(true)) => StopPhase::Nap { group: true },
            (StopPhase::ProbeGroup, StopEvent::Alive(false)) => {
                StopPhase::ProbeLeader { group: true }
            },
            (StopPhase::ProbeLeader { group }, StopEvent::Alive(true)) => StopPhase::Nap { group },
            (StopPhase::ProbeLeader { .. }, StopEvent::Alive(false)) => StopPhase::Finished,
            (StopPhase::Nap { group }, StopEvent::Slept) => StopPhase::Clock { group },
            (StopPhase::KillGroup, StopEvent::Delivered(_)) => StopPhase::KillLeader,
            (StopPhase::KillLeader, StopEvent::Delivered(_)) => StopPhase::Finished,
            (phase, _) => phase,
        };
        self.phase = phase;
    }
}

/// The first state of a stop of the service process `pid` and its process
/// group. The one `pid` that is left out has no negative, so it names no
/// group.
pub fn stop_service(pid: u32) -> (state: StopState)
    requires
        pid != 0x8000_0000,
    ensures
        state.leader == signed_pid(pid),
        state.group == -signed_pid(pid),
        state.phase == StopPhase::TermGroup,
{
    let leader: i32 = #[verifier::truncate]
    (pid as i32);
    assert(pid < 0x8000_0000u32 ==> pid as i32 == pid) by (bit_vector);
    assert(pid >= 0x8000_0000u32 ==> pid as i32 == pid - 0x1_0000_0000) by (bit_vector);
    StopState { leader, group: -leader, phase: StopPhase::TermGroup }
}

/// The state after `events`, taken one by one from `start`.
pub open spec fn run(start: StopState, events: Seq<StopEvent>) -> StopState
    decreases events.len(),
{
    if events.len() == 0 {
        start
    } else {
        run(start, events.drop_last()).next(events.last())
    }
}

/// Whether each of `events` answers the action that is due when it comes.
pub open spec fn answers(start: StopState, events: Seq<StopEvent>) -> bool
    decreases events.len(),
{
    events.len() > 0 ==> {
        &&& answers(start, events.drop_last())
        &&& run(start, events.drop_last()).answered_by(events.last())
    }
}

/// The signals that were sent while `events` came in, with their targets, in
/// order.
pub open spec fn signals(start: StopState, events: Seq<StopEvent>) -> Seq<(i32, Signal)>
    decreases events.len(),
{
    if events.len() == 0 {
        Seq::empty()
    } else {
        let before = signals(start, events.drop_last());
        match run(start, events.drop_last()).due() {
            StopAction::Send { target, signal } => before.push((target, signal)),
            _ => before,
        }
    }
}

/// Whether some clock reading among `events` is past the grace period.
pub open spec fn grace_over(events: Seq<StopEvent>) -> bool {
    exists|i: int|
        0 <= i < events.len() && (#[trigger] events[i] matches StopEvent::Elapsed(millis)
            && millis >= TERM_GRACE_MS)
}

/// Whether probes found the group and then the process gone, one right after
/// the other, the first of them at position `i` of `events`.
pub open spec fn both_gone_at(events: Seq<StopEvent>, i: int) -> bool {
    &&& 0 <= i < events.len() - 1
    &&& events[i] == StopEvent::Alive(false)
    &&& events[i + 1] == StopEvent::Alive(false)
}

/// How many sleeps `events` report.
pub open spec fn naps(events: Seq<StopEvent>) -> nat
    decreases events.len(),
{
    if events.len() == 0 {
        0
    } else {
        naps(events.drop_last()) + if events.last() is Slept {
            1nat
        } else {
            0nat
        }
    }
}

/// Whether every clock reading among `events` accounts for the sleeps before
/// it.
pub open spec fn clock_counts_naps(events: Seq<StopEvent>) -> bool {
    forall|i: int|
        0 <= i < events.len() ==> (#[trigger] events[i] matches StopEvent::Elapsed(millis)
            ==> millis >= POLL_INTERVAL_MS * naps(events.take(i)))
}

/// What holds of a stop of the whole group that is still waiting.
spec fn waits_for_group(start: StopState, events: Seq<StopEvent>) -> bool {
    &&& events.len() >= 1
    &&& events[0] == StopEvent::Delivered(true)
    &&& signals(start, events) == seq![(start.group, Signal::Term)]
    &&& !grace_over(events)
    &&& forall|i: int| !both_gone_at(events, i)
}

/// What holds of a stop of the single process that is still waiting.
spec fn waits_for_leader(start: StopState, events: Seq<StopEvent>) -> bool {
    &&& events.len() >= 2
    &&& events[0] == StopEvent::Delivered(false)
    &&& events[1] == StopEvent::Delivered(true)
    &&& signals(start, events) == seq![(start.group, Signal::Term), (start.leader, Signal::Term)]
    &&& !grace_over(events)
    &&& !events.contains(StopEvent::Alive(false))
}

/// The ways in which a stop can end.
pub enum StopOutcome {
    /// Neither the group nor the process took a `TERM`: there was nothing to
    /// stop.
    NothingThere,
    /// The group and the process were gone within the grace period.
    GroupGone,
    /// There was no such group, and the process was gone within the grace
    /// period.
    LeaderGone,
    /// The grace period ran out, and no look found the group and the process
    /// gone: they were killed.
    GroupKilled,
    /// There was no such group, the grace period ran out, and no look found the
    /// process gone: it was killed.
    LeaderKilled,
}

/// What was sent and what was seen in a stop that ended in a given way.
pub open spec fn ended_as(
    start: StopState,
    events: Seq<StopEvent>,
    outcome: StopOutcome,
) -> bool {
    let term_group = (start.group, Signal::Term);
    let term_leader = (start.leader, Signal::Term);
    let kill_group = (start.group, Signal::Kill);
    let kill_leader = (start.leader, Signal::Kill);
    let sent = signals(start, events);
    let n = events.len() as int;
    match outcome {
        StopOutcome::NothingThere => {
            &&& events == seq![StopEvent::Delivered(false), StopEvent::Delivered(false)]
            &&& sent == seq![term_group, term_leader]
        },
        StopOutcome::GroupGone => {
            &&& n >= 3
            &&& events[0] == StopEvent::Delivered(true)
            &&& sent == seq![term_group]
            &&& events[n - 2] == StopEvent::Alive(false)
            &&& events[n - 1] == StopEvent::Alive(false)
            &&& !grace_over(events)
        },
        StopOutcome::LeaderGone => {
            &&& n >= 3
            &&& events[0] == StopEvent::Delivered(false)
            &&& events[1] == StopEvent::Delivered(true)
            &&& sent == seq![term_group, term_leader]
            &&& events[n - 1] == StopEvent::Alive(false)
            &&& !grace_over(events)
        },
        StopOutcome::GroupKilled => {
            &&& events[0] == StopEvent::Delivered(true)
            &&& sent == seq![term_group, kill_group, kill_leader]
            &&& grace_over(events)
            &&& forall|i: int| !both_gone_at(events, i)
        },
        StopOutcome::LeaderKilled => {
            &&& events[0] == StopEvent::Delivered(false)
            &&& events[1] == StopEvent::Delivered(true)
            &&& sent == seq![term_group, term_leader, kill_leader]
            &&& grace_over(events)
            &&& !events.contains(StopEvent::Alive(false))
        },
    }
}

/// What holds of a run up to any point of it.
spec fn run_invariant(start: StopState, events: Seq<StopEvent>) -> bool {
    let at = run(start, events);
    let sent = signals(start, events);
    let n = events.len() as int;
    &&& at.leader == start.leader
    &&& at.group == start.group
    &&& match at.phase {
        StopPhase::TermGroup => n == 0,
        StopPhase::TermLeader => {
            &&& events == seq![StopEvent::Delivered(false)]
            &&& sent == seq![(start.group, Signal::Term)]
        },
        StopPhase::Clock { group } => if group {
            waits_for_group(start, events)
        } else {
            waits_for_leader(start, events)
        },
        StopPhase::Nap { group } => if group {
            waits_for_group(start, events)
        } else {
            waits_for_leader(start, events)
        },
        StopPhase::ProbeGroup => waits_for_group(start, events) && n >= 2 && events[n - 1]
            is Elapsed,
        StopPhase::ProbeLeader { group } => if group {
            waits_for_group(start, events) && n >= 2 && events[n - 1] == StopEvent::Alive(false)
        } else {
            waits_for_leader(start, events)
        },
        StopPhase::KillGroup => {
            &&& n >= 1
            &&& events[0] == StopEvent::Delivered(true)
            &&& sent == seq![(start.group, Signal::Term)]
            &&& grace_over(events)
            &&& forall|i: int| !both_gone_at(events, i)
        },
        StopPhase::KillLeader => {
            &&& grace_over(events)
            &&& {
                ||| n >= 1 && events[0] == StopEvent::Delivered(true) && sent == seq![
                    (start.group, Signal::Term),
                    (start.group, Signal::Kill),
                ] && (forall|i: int| !both_gone_at(events, i))
                ||| n >= 2 && events[0] == StopEvent::Delivered(false) && events[1]
                    == StopEvent::Delivered(true) && sent == seq![
                    (start.group, Signal::Term),
                    (start.leader, Signal::Term),
                ] && !events.contains(StopEvent::Alive(false))
            }
        },
        StopPhase::Finished => exists|outcome: StopOutcome| ended_as(start, events, outcome),
    }
}

proof fn lemma_grace_over_push(events: Seq<StopEvent>)
    requires
        events.len() > 0,
    ensures
        grace_over(events) <==> grace_over(events.drop_last()) || (
        events.last() matches StopEvent::Elapsed(millis) && millis >= TERM_GRACE_MS),
{
    let before = events.drop_last();
    if grace_over(before) {
        let i = choose|i: int|
            0 <= i < before.len() && (#[trigger] before[i] matches StopEvent::Elapsed(millis)
                && millis >= TERM_GRACE_MS);
        assert(events[i] == before[i]);
    }
    if grace_over(events) {
        let i = choose|i: int|
            0 <= i < events.len() && (#[trigger] events[i] matches StopEvent::Elapsed(millis)
                && millis >= TERM_GRACE_MS);
        if i < before.len() {
            assert(events[i] == before[i]);
        }
    }
}

proof fn lemma_probes_push(events: Seq<StopEvent>)
    requires
        events.len() > 0,
    ensures
        events.contains(StopEvent::Alive(false)) <==> events.drop_last().contains(
            StopEvent::Alive(false),
        ) || events.last() == StopEvent::Alive(false),
        (forall|i: int| !both_gone_at(events.drop_last(), i)) && !(events.len() >= 2
            && events[events.len() - 2] == StopEvent::Alive(false) && events.last()
            == StopEvent::Alive(false)) ==> (forall|i: int| !both_gone_at(events, i)),
{
    let before = events.drop_last();
    assert(events =~= before.push(events.last()));
    if before.contains(StopEvent::Alive(false)) {
        let i = before.index_of(StopEvent::Alive(false));
        assert(events[i] == before[i]);
    }
    if events.last() == StopEvent::Alive(false) {
        assert(events[events.len() - 1] == StopEvent::Alive(false));
    }
    if events.contains(StopEvent::Alive(false)) {
        let i = events.index_of(StopEvent::Alive(false));
        if i < before.len() {
            assert(before[i] == events[i]);
        }
    }
    assert forall|i: int|
        (forall|k: int| !both_gone_at(before, k)) && both_gone_at(events, i) implies i
        == events.len() - 2 by {
        if i < events.len() - 2 {
            assert(both_gone_at(before, i));
        }
    }
}

proof fn lemma_run_invariant(start: StopState, events: Seq<StopEvent>)
    requires
        start.phase == StopPhase::TermGroup,
        answers(start, events),
    ensures
        run_invariant(start, events),
    decreases events.len(),
{
    if events.len() > 0 {
        let before = events.drop_last();
        lemma_run_invariant(start, before);
        lemma_grace_over_push(events);
        lemma_probes_push(events);
        let was = run(start, before);
        let last = events.last();
        assert(events =~= before.push(last));
        match was.phase {
            StopPhase::TermGroup => {
                assert(signals(start, before) =~= Seq::empty());
                assert(!grace_over(before));
                assert(signals(start, events) =~= seq![(start.group, Signal::Term)]);
                if last == StopEvent::Delivered(false) {
                    assert(events =~= seq![StopEvent::Delivered(false)]);
                }
            },
            StopPhase::TermLeader => {
                assert(!grace_over(before));
                assert(signals(start, events) =~= seq![
                    (start.group, Signal::Term),
                    (start.leader, Signal::Term),
                ]);
                if last == StopEvent::Delivered(false) {
                    assert(events =~= seq![
                        StopEvent::Delivered(false),
                        StopEvent::Delivered(false),
                    ]);
                    assert(ended_as(start, events, StopOutcome::NothingThere));
                }
            },
            StopPhase::ProbeLeader { group } => {
                if last == StopEvent::Alive(false) {
                    if group {
                        assert(ended_as(start, events, StopOutcome::GroupGone));
                    } else {
                        assert(ended_as(start, events, StopOutcome::LeaderGone));
                    }
                }
            },
            StopPhase::KillGroup => {
                assert(signals(start, events) =~= seq![
                    (start.group, Signal::Term),
                    (start.group, Signal::Kill),
                ]);
            },
            StopPhase::KillLeader => {
                if events[0] == StopEvent::Delivered(true) {
                    assert(signals(start, events) =~= seq![
                        (start.group, Signal::Term),
                        (start.group, Signal::Kill),
                        (start.leader, Signal::Kill),
                    ]);
                    assert(ended_as(start, events, StopOutcome::GroupKilled));
                } else {
                    assert(signals(start, events) =~= seq![
                        (start.group, Signal::Term),
                        (start.leader, Signal::Term),
                        (start.leader, Signal::Kill),
                    ]);
                    assert(ended_as(start, events, StopOutcome::LeaderKilled));
                }
            },
            _ => {},
        }
    }
}

/// A stop that is over ended in one of five ways. It starts with a `TERM` to
/// the group; the process alone is signalled only when the group took no
/// `TERM`; nothing is killed unless a `TERM` was delivered, the grace period
/// ran out, and no look found the targets gone; and without a kill they were
/// found gone.
pub proof fn stop_ends_in_one_of_five_ways(start: StopState, events: Seq<StopEvent>)
    requires
        start.phase == StopPhase::TermGroup,
        answers(start, events),
        run(start, events).phase == StopPhase::Finished,
    ensures
        exists|outcome: StopOutcome| ended_as(start, events, outcome),
{
    lemma_run_invariant(start, events);
}

/// At any point of a stop, a `KILL` has been sent only after a delivered
/// `TERM` and a clock reading past the grace period.
pub proof fn kill_comes_after_the_grace_period(start: StopState, events: Seq<StopEvent>, i: int)
    requires
        start.phase == StopPhase::TermGroup,
        answers(start, events),
        0 <= i < signals(start, events).len(),
        signals(start, events)[i].1 == Signal::Kill,
    ensures
        grace_over(events),
        events.contains(StopEvent::Delivered(true)),
        i > 0,
        signals(start, events)[0] == (start.group, Signal::Term),
{
    lemma_run_invariant(start, events);
    assert(signals(start, seq![]) =~= Seq::empty());
    if run(start, events).phase is TermGroup {
        assert(signals(start, events) =~= Seq::empty());
    }
    if run(start, events).phase is Finished {
        let outcome = choose|outcome: StopOutcome| ended_as(start, events, outcome);
        assert(ended_as(start, events, outcome));
    }
    assert(events[0] == StopEvent::Delivered(true) || events[1] == StopEvent::Delivered(true));
}

/// A stop only ever signals the process group and the process.
pub proof fn stop_signals_only_its_targets(start: StopState, events: Seq<StopEvent>)
    ensures
        forall|i: int|
            0 <= i < signals(start, events).len() ==> {
                let target = (#[trigger] signals(start, events)[i]).0;
                target == start.group || target == start.leader
            },
        run(start, events).group == start.group,
        run(start, events).leader == start.leader,
    decreases events.len(),
{
    if events.len() > 0 {
        let before = events.drop_last();
        stop_signals_only_its_targets(start, before);
        assert forall|i: int| 0 <= i < signals(start, events).len() implies {
            let target = (#[trigger] signals(start, events)[i]).0;
            target == start.group || target == start.leader
        } by {
            if i < signals(start, before).len() {
                assert(signals(start, events)[i] == signals(start, before)[i]);
            }
        }
    }
}

/// How many events can have come in at `phase` after `naps` sleeps.
spec fn event_bound(phase: StopPhase, naps: int) -> int {
    match phase {
        StopPhase::TermGroup => 0,
        StopPhase::TermLeader => 1,
        StopPhase::Clock { .. } => 2 + 4 * naps,
        StopPhase::ProbeGroup => 3 + 4 * naps,
        StopPhase::ProbeLeader { .. } => 4 + 4 * naps,
        StopPhase::Nap { .. } => 5 + 4 * naps,
        StopPhase::KillGroup => 3 + 4 * naps,
        StopPhase::KillLeader => 4 + 4 * naps,
        StopPhase::Finished => 5 + 4 * naps,
    }
}

proof fn lemma_event_bound(start: StopState, events: Seq<StopEvent>)
    requires
        start.phase == StopPhase::TermGroup,
        answers(start, events),
        clock_counts_naps(events),
    ensures
        events.len() <= event_bound(run(start, events).phase, naps(events) as int),
        naps(events) <= 30,
        match run(start, events).phase {
            StopPhase::ProbeGroup | StopPhase::ProbeLeader { .. } | StopPhase::Nap { .. } => naps(
                events,
            ) < 30,
            _ => true,
        },
        run(start, events).phase is TermGroup || run(start, events).phase is TermLeader ==> naps(
            events,
        ) == 0,
    decreases events.len(),
{
    if events.len() > 0 {
        let before = events.drop_last();
        let n = events.len() - 1;
        assert forall|i: int| 0 <= i < before.len() implies (
        #[trigger] before[i] matches StopEvent::Elapsed(millis) ==> millis >= POLL_INTERVAL_MS
            * naps(before.take(i))) by {
            assert(events[i] == before[i]);
            assert(events.take(i) =~= before.take(i));
        }
        lemma_event_bound(start, before);
        assert(events.take(n) =~= before);
        assert(events[n] == events.last());
    }
}

/// A stop ends: when the clock accounts for the sleeps, no run of answers is
/// longer than 125, and it holds 30 sleeps at most.
pub proof fn stop_ends(start: StopState, events: Seq<StopEvent>)
    requires
        start.phase == StopPhase::TermGroup,
        answers(start, events),
        clock_counts_naps(events),
    ensures
        events.len() <= 125,
        naps(events) <= 30,
{
    lemma_event_bound(start, events);
}

/// Whether `TERM` went to the whole group, or to the single process once the
/// group had refused it.
spec fn term_taken(events: Seq<StopEvent>, group: bool) -> bool {
    if group {
        events.len() >= 1 && events[0] == StopEvent::Delivered(true)
    } else {
        events.len() >= 2 && events[0] == StopEvent::Delivered(false) && events[1]
            == StopEvent::Delivered(true)
    }
}

/// What the answers so far look like, at each phase.
spec fn shape(events: Seq<StopEvent>, phase: StopPhase) -> bool {
    let n = events.len() as int;
    match phase {
        StopPhase::TermGroup => n == 0,
        StopPhase::TermLeader => n == 1 && events[0] == StopEvent::Delivered(false),
        StopPhase::Clock { group } => {
            &&& term_taken(events, group)
            &&& events[n - 1] is Slept || n == (if group {
                1int
            } else {
                2
            })
        },
        StopPhase::Nap { group } => term_taken(events, group) && events[n - 1] == StopEvent::Alive(
            true,
        ),
        StopPhase::ProbeGroup => {
            &&& term_taken(events, true)
            &&& events[n - 1] matches StopEvent::Elapsed(millis) && millis < 3000
        },
        StopPhase::ProbeLeader { group } => {
            &&& term_taken(events, group)
            &&& if group {
                n >= 2 && events[n - 2] is Elapsed && events[n - 1] == StopEvent::Alive(false)
            } else {
                events[n - 1] matches StopEvent::Elapsed(millis) && millis < 3000
            }
        },
        StopPhase::KillGroup => {
            &&& term_taken(events, true)
            &&& events[n - 1] matches StopEvent::Elapsed(millis) && millis >= 3000
        },
        StopPhase::KillLeader => {
            ||| term_taken(events, true) && n >= 3 && events[n - 2] is Elapsed && events[n
                - 1] is Delivered
            ||| term_taken(events, false) && (events[n - 1] matches StopEvent::Elapsed(millis)
                && millis >= 3000)
        },
        StopPhase::Finished => {
            ||| n == 2 && events[0] == StopEvent::Delivered(false) && events[1]
                == StopEvent::Delivered(false)
            ||| term_taken(events, true) && n >= 3 && events[n - 2] == StopEvent::Alive(false)
                && events[n - 1] == StopEvent::Alive(false)
            ||| term_taken(events, false) && n >= 3 && events[n - 1] == StopEvent::Alive(false)
            ||| term_taken(events, true) && n >= 4 && events[n - 2] is Delivered && events[n
                - 1] is Delivered
            ||| term_taken(events, false) && n >= 4 && events[n - 2] is Elapsed && events[n
                - 1] is Delivered
        },
    }
}

proof fn lemma_shape(start: StopState, events: Seq<StopEvent>)
    requires
        start.phase == StopPhase::TermGroup,
        answers(start, events),
    ensures
        shape(events, run(start, events).phase),
        run(start, events).leader == start.leader,
        run(start, events).group == start.group,
    decreases events.len(),
{
    if events.len() > 0 {
        let before = events.drop_last();
        lemma_shape(start, before);
        assert(events =~= before.push(events.last()));
    }
}

/// What is due follows from the answers alone. A stop begins with a `TERM` to
/// the group, and goes on to the process alone when the group refuses it.
/// Below the grace period every clock reading is followed by a look at the
/// target, and from its end on by a `KILL` to it. A target that is there is
/// given a tenth of a second, after which the clock is read again. A group
/// that is gone has its process looked at; a process that is gone ends the
/// stop. Once the group is killed the process is, and then the stop is over,
/// whatever became of the signals.
pub proof fn the_answers_decide_what_is_due(start: StopState, events: Seq<StopEvent>)
    requires
        start.phase == StopPhase::TermGroup,
        answers(start, events),
    ensures
        ({
            let n = events.len() as int;
            let due = run(start, events).due();
            let whole_group = n > 0 && events[0] == StopEvent::Delivered(true);
            let target = if whole_group {
                start.group
            } else {
                start.leader
            };
            if n == 0 {
                due == (StopAction::Send { target: start.group, signal: Signal::Term })
            } else {
                match events[n - 1] {
                    StopEvent::Delivered(ok) => {
                        if n == 1 && !ok {
                            due == (StopAction::Send { target: start.leader, signal: Signal::Term })
                        } else if n == 1 || n == 2 && !whole_group && ok {
                            due == StopAction::ReadClock
                        } else if whole_group && events[n - 2] is Elapsed {
                            due == (StopAction::Send { target: start.leader, signal: Signal::Kill })
                        } else {
                            due == StopAction::Finished
                        }
                    },
                    StopEvent::Elapsed(millis) => if millis < 3000 {
                        due == (StopAction::Probe { target })
                    } else {
                        due == (StopAction::Send { target, signal: Signal::Kill })
                    },
                    StopEvent::Alive(true) => due == (StopAction::Sleep { millis: 100 }),
                    StopEvent::Alive(false) => if whole_group && events[n - 2] is Elapsed {
                        due == (StopAction::Probe { target: start.leader })
                    } else {
                        due == StopAction::Finished
                    },
                    StopEvent::Slept => due == StopAction::ReadClock,
                }
            }
        }),
{
    lemma_shape(start, events);
    if events.len() > 0 {
        let before = events.drop_last();
        lemma_shape(start, before);
        assert(events =~= before.push(events.last()));
    }
}

proof fn lemma_answers_up_to(start: StopState, events: Seq<StopEvent>, k: int)
    requires
        answers(start, events),
        0 <= k <= events.len(),
    ensures
        answers(start, events.take(k)),
        k < events.len() ==> run(start, events.take(k)).answered_by(events[k]),
    decreases events.len() - k,
{
    if k == events.len() {
        assert(events.take(k) =~= events);
    } else {
        lemma_answers_up_to(start, events, k + 1);
        assert(events.take(k + 1).drop_last() =~= events.take(k));
        assert(events.take(k + 1).last() == events[k]);
    }
}

/// A stop sleeps only right after a look that found a target there: between
/// any two sleeps there is a look, and so is one before the first.
pub proof fn every_sleep_follows_a_look(start: StopState, events: Seq<StopEvent>, i: int)
    requires
        start.phase == StopPhase::TermGroup,
        answers(start, events),
        0 <= i < events.len(),
        events[i] is Slept,
    ensures
        i > 0,
        events[i - 1] == StopEvent::Alive(true),
        forall|j: int|
            0 <= j < i && #[trigger] events[j] is Slept ==> exists|k: int|
                j < k < i && #[trigger] events[k] is Alive,
{
    lemma_answers_up_to(start, events, i);
    the_answers_decide_what_is_due(start, events.take(i));
    assert(events[i - 1] is Alive);
}

/// What is gone is not killed. When the clock is read within the grace period
/// and every look from then on finds its target gone, the stop is over after
/// two looks at most, and no `KILL` is sent.
pub proof fn what_is_gone_is_not_killed(start: StopState, events: Seq<StopEvent>, k: int)
    requires
        start.phase == StopPhase::TermGroup,
        answers(start, events),
        0 <= k < events.len(),
        events[k] matches StopEvent::Elapsed(millis) && millis < 3000,
        forall|i: int|
            k < i < events.len() ==> #[trigger] events[i] != StopEvent::Alive(true),
    ensures
        events.len() <= k + 3,
        events.len() == k + 3 ==> run(start, events).due() == StopAction::Finished,
        forall|i: int|
            0 <= i < signals(start, events).len() ==> (#[trigger] signals(start, events)[i]).1
                == Signal::Term,
{
    let n = events.len() as int;
    let read = events.take(k + 1);
    assert(events.take(n) =~= events);
    lemma_answers_up_to(start, events, k + 1);
    the_answers_decide_what_is_due(start, read);
    lemma_run_invariant(start, read);
    if n > k + 1 {
        let once = events.take(k + 2);
        lemma_answers_up_to(start, events, k + 2);
        the_answers_decide_what_is_due(start, once);
        assert(events[k + 1] is Alive);
        if n > k + 2 {
            assert(events[k + 2] is Alive);
            let twice = events.take(k + 3);
            lemma_answers_up_to(start, events, k + 3);
            the_answers_decide_what_is_due(start, twice);
        }
    }
    assert forall|i: int| 0 <= i < signals(start, events).len() implies (#[trigger] signals(
        start,
        events,
    )[i]).1 == Signal::Term by {
        if signals(start, events)[i].1 == Signal::Kill {
            kill_comes_after_the_grace_period(start, events, i);
            let late = choose|i: int|
                0 <= i < events.len() && (#[trigger] events[i] matches StopEvent::Elapsed(millis)
                    && millis >= TERM_GRACE_MS);
            if late <= k {
                assert(read[late] == events[late]);
                assert(grace_over(read));
            }
            assert(false);
        }
    }
}

/// A process id keeps its 32 bits as a signal target, and a small one its
/// value; no two ids share a target.
pub proof fn a_pid_is_its_own_target(pid: u32, other: u32)
    ensures
        -0x8000_0000 <= signed_pid(pid) <= 0x7fff_ffff,
        signed_pid(pid) == pid || signed_pid(pid) == pid - 0x1_0000_0000,
        signed_pid(pid) == signed_pid(other) ==> pid == other,
{
}

} // verus!
