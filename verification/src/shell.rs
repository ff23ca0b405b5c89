//! The life of the service under the shell: launch, watch, restart after an
//! unexpected exit, quit.
//!
//! One worker at a time launches the service, watches it, or backs off before
//! a restart; a quit can come at any moment. The state says what each of these
//! finds, and each answer is a list of actions to carry out in order. A
//! process is in the state from its spawn on, so that a quit finds it even
//! before it is ready.

use crate::service::{ServiceError, ServiceHandle};
use vstd::prelude::*;

verus! {

/// Backoff between an unexpected exit and the restart, in milliseconds.
pub const RESTART_DELAY_MS: u64 = 1000;

/// Shared shell state.
#[derive(Debug, PartialEq, Eq)]
pub struct ShellState {
    /// The running service, if one is held.
    pub service: Option<ServiceHandle>,
    /// The process that was spawned and is not ready: it is being waited for,
    /// or the wait for it ran out.
    pub starting: Option<u32>,
    /// The process that was to be stopped before its launch was over.
    pub stopping: Option<u32>,
    /// Whether the shell is quitting: an exit of the service is then expected,
    /// and nothing is restarted.
    pub quitting: bool,
}

/// What the shell is to do.
#[derive(Debug, PartialEq, Eq)]
pub enum ShellAction {
    /// Point the main window at a URL.
    Navigate(String),
    /// Wait for the service's exit, then report it to
    /// [`ShellState::watch_service`].
    Watch,
    /// Tell the window that the service failed.
    ReportError(ServiceError),
    /// Wait, then go on with [`ShellState::restart_service`].
    Backoff { millis: u64 },
    /// Launch the service: spawn its process, report that to
    /// [`ShellState::service_spawned`], wait for its readiness, and report the
    /// outcome to [`ShellState::service_launched`].
    Launch,
    /// Stop a service process.
    StopService { pid: u32 },
    /// End the shell with an exit code.
    Exit { code: i32 },
}

/// The state of a shell that has just started.
pub open spec fn initial_state() -> ShellState {
    ShellState { service: None, starting: None, stopping: None, quitting: false }
}

/// The state after the spawn of process `pid`.
pub open spec fn after_spawn(state: ShellState, pid: u32) -> ShellState {
    if state.quitting {
        ShellState { starting: None, stopping: Some(pid), ..state }
    } else {
        ShellState { starting: Some(pid), ..state }
    }
}

/// What the spawn of process `pid` calls for: a quitting shell wants no
/// service, so the process is stopped.
pub open spec fn spawn_actions(state: ShellState, pid: u32) -> Seq<ShellAction> {
    if state.quitting {
        seq![ShellAction::StopService { pid }]
    } else {
        seq![]
    }
}

/// The state after a launch. A quitting shell holds no service. A process that
/// was not ready in time is still there, and stays known.
pub open spec fn after_launch(
    state: ShellState,
    launched: Result<ServiceHandle, ServiceError>,
) -> ShellState {
    match launched {
        Ok(handle) => ShellState {
            service: if state.quitting {
                None
            } else {
                Some(handle)
            },
            starting: None,
            stopping: None,
            quitting: state.quitting,
        },
        Err(error) => ShellState {
            service: state.service,
            starting: if error is ReadyTimeout {
                state.starting
            } else {
                None
            },
            stopping: None,
            quitting: state.quitting,
        },
    }
}

/// What a launch calls for: the window goes to the service's URL, and the
/// service is watched; a failure is reported, and not tried again. A quitting
/// shell has the service stopped instead, unless that was called for before.
pub open spec fn launch_actions(
    state: ShellState,
    launched: Result<ServiceHandle, ServiceError>,
) -> Seq<ShellAction> {
    match launched {
        Ok(handle) => if state.quitting {
            if state.stopping == Some(handle.pid) {
                seq![]
            } else {
                seq![ShellAction::StopService { pid: handle.pid }]
            }
        } else {
            match handle.url {
                Some(url) => seq![ShellAction::Navigate(url), ShellAction::Watch],
                None => seq![ShellAction::Watch],
            }
        },
        Err(error) => seq![ShellAction::ReportError(error)],
    }
}

/// The state after the exit of process `pid` that was not ready in time.
pub open spec fn after_late_exit(state: ShellState, pid: u32) -> ShellState {
    ShellState {
        starting: if state.starting == Some(pid) {
            None
        } else {
            state.starting
        },
        ..state
    }
}

/// The state after the watched service has exited.
pub open spec fn after_exit(state: ShellState) -> ShellState {
    if state.quitting {
        state
    } else {
        ShellState { service: None, ..state }
    }
}

/// What an exit of the watched service calls for.
pub open spec fn exit_actions(state: ShellState) -> Seq<ShellAction> {
    if state.quitting {
        seq![]
    } else {
        seq![ShellAction::Backoff { millis: RESTART_DELAY_MS }]
    }
}

/// What the end of the backoff calls for.
pub open spec fn restart_actions(state: ShellState) -> Seq<ShellAction> {
    if state.quitting {
        seq![]
    } else {
        seq![ShellAction::Launch]
    }
}

/// The state after a quit.
pub open spec fn after_quit(state: ShellState) -> ShellState {
    ShellState {
        service: None,
        starting: None,
        stopping: if state.starting is Some {
            state.starting
        } else {
            state.stopping
        },
        quitting: true,
    }
}

/// What a quit calls for: the process that is starting and the service that is
/// held are stopped before the shell ends.
pub open spec fn quit_actions(state: ShellState) -> Seq<ShellAction> {
    let starting = match state.starting {
        Some(pid) => seq![ShellAction::StopService { pid }],
        None => seq![],
    };
    let service = match state.service {
        Some(handle) => seq![ShellAction::StopService { pid: handle.pid }],
        None => seq![],
    };
    starting + service + seq![ShellAction::Exit { code: 0 }]
}

impl ShellState {
    /// The state of a shell that has just started. Its service is yet to be
    /// launched.
    pub fn new() -> (state: ShellState)
        ensures
            state == initial_state(),
    {
        ShellState { service: None, starting: None, stopping: None, quitting: false }
    }

    /// Whether a launch that was called for may still spawn its process: not
    /// once the shell is quitting.
    pub fn may_spawn(&self) -> (may: bool)
        ensures
            may == !self.quitting,
    {
        !self.quitting
    }

    /// Takes the spawn of process `pid`, which is not ready yet.
    pub fn service_spawned(&mut self, pid: u32) -> (actions: Vec<ShellAction>)
        ensures
            *final(self) == after_spawn(*old(self), pid),
            actions@ == spawn_actions(*old(self), pid),
            final(self).quitting == old(self).quitting,
            final(self).service == old(self).service,
            final(self).starting == (if old(self).quitting {
                None
            } else {
                Some(pid)
            }),
    {
        let mut actions: Vec<ShellAction> = Vec::new();
        if self.quitting {
            self.starting = None;
            self.stopping = Some(pid);
            actions.push(ShellAction::StopService { pid });
        } else {
            self.starting = Some(pid);
        }
        assert(actions@ =~= spawn_actions(*old(self), pid));
        actions
    }

    /// Takes the outcome of a launch.
    pub fn service_launched(&mut self, launched: Result<ServiceHandle, ServiceError>) -> (actions:
        Vec<ShellAction>)
        ensures
            *final(self) == after_launch(*old(self), launched),
            actions@ == launch_actions(*old(self), launched),
    {
        let mut actions: Vec<ShellAction> = Vec::new();
        match launched {
            Ok(handle) => {
                if self.quitting {
                    let ordered = match self.stopping {
                        Some(pid) => pid == handle.pid,
                        None => false,
                    };
                    if !ordered {
                        actions.push(ShellAction::StopService { pid: handle.pid });
                    }
                    self.service = None;
                } else {
                    match &handle.url {
                        Some(url) => {
                            actions.push(ShellAction::Navigate(url.clone()));
                        },
                        None => {},
                    }
                    self.service = Some(handle);
                    actions.push(ShellAction::Watch);
                }
                self.starting = None;
            },
            Err(error) => {
                match &error {
                    ServiceError::ReadyTimeout { .. } => {},
                    _ => {
                        self.starting = None;
                    },
                }
                actions.push(ShellAction::ReportError(error));
            },
        }
        self.stopping = None;
        assert(actions@ =~= launch_actions(*old(self), launched));
        actions
    }

    /// Takes the exit of process `pid` that was not ready in time: from then on
    /// there is nothing to stop.
    pub fn late_process_exited(&mut self, pid: u32)
        ensures
            *final(self) == after_late_exit(*old(self), pid),
    {
        let known = match self.starting {
            Some(starting) => starting == pid,
            None => false,
        };
        if known {
            self.starting = None;
        }
    }

    /// Takes the exit of the watched service. An unexpected one starts a
    /// restart: the stale handle is dropped, so that a quit during the backoff
    /// does not signal a dead process.
    pub fn watch_service(&mut self) -> (actions: Vec<ShellAction>)
        ensures
            *final(self) == after_exit(*old(self)),
            actions@ == exit_actions(*old(self)),
    {
        let mut actions: Vec<ShellAction> = Vec::new();
        if !self.quitting {
            self.service = None;
            actions.push(ShellAction::Backoff { millis: RESTART_DELAY_MS });
        }
        assert(actions@ =~= exit_actions(*old(self)));
        actions
    }

    /// Goes on with a restart once the backoff is over, unless the shell is
    /// quitting by then.
    pub fn restart_service(&self) -> (actions: Vec<ShellAction>)
        ensures
            actions@ == restart_actions(*self),
    {
        let mut actions: Vec<ShellAction> = Vec::new();
        if !self.quitting {
            actions.push(ShellAction::Launch);
        }
        assert(actions@ =~= restart_actions(*self));
        actions
    }

    /// Quits the shell: stops the process that is starting and the service
    /// that is held, then exits.
    pub fn quit_shell(&mut self) -> (actions: Vec<ShellAction>)
        ensures
            *final(self) == after_quit(*old(self)),
            actions@ == quit_actions(*old(self)),
    {
        let mut actions: Vec<ShellAction> = Vec::new();
        self.quitting = true;
        match self.starting {
            Some(pid) => {
                actions.push(ShellAction::StopService { pid });
                self.stopping = Some(pid);
            },
            None => {},
        }
        match &self.service {
            Some(handle) => {
                actions.push(ShellAction::StopService { pid: handle.pid });
            },
            None => {},
        }
        self.starting = None;
        self.service = None;
        actions.push(ShellAction::Exit { code: 0 });
        assert(actions@ =~= quit_actions(*old(self)));
        actions
    }
}

/// What the shell is told.
pub enum ShellEvent {
    Spawned(u32),
    Launched(Result<ServiceHandle, ServiceError>),
    LateExited,
    Exited,
    BackoffOver,
    Quit,
}

/// What the worker is busy with.
pub enum Task {
    /// Spawning the process of a launch.
    Spawn,
    /// Waiting for the readiness of process `pid`.
    Await { pid: u32 },
    /// Waiting for the end of process `pid`, which was not ready in time.
    Late { pid: u32 },
    Watch,
    Backoff,
    /// The worker has ended.
    Nothing,
}

/// Whether `event` says that a launch ran out of time.
pub open spec fn times_out(event: ShellEvent) -> bool {
    event matches ShellEvent::Launched(Err(ServiceError::ReadyTimeout { .. }))
}

/// A shell at some moment: its state, and what its worker is busy with.
pub struct Moment {
    pub state: ShellState,
    pub task: Task,
}

/// The first moment: the service is being launched.
pub open spec fn first_moment() -> Moment {
    Moment { state: initial_state(), task: Task::Spawn }
}

impl Moment {
    /// Whether `event` can come now: a quit always can, anything else comes
    /// from the task that the worker is busy with. A launch ends in a spawn
    /// failure, or it spawns a process and ends in anything else.
    pub open spec fn can_see(self, event: ShellEvent) -> bool {
        match event {
            ShellEvent::Spawned(_) => self.task is Spawn,
            ShellEvent::Launched(Ok(handle)) => self.task == Task::Await { pid: handle.pid },
            ShellEvent::Launched(Err(ServiceError::Spawn(_))) => self.task is Spawn,
            ShellEvent::Launched(Err(_)) => self.task is Await,
            ShellEvent::LateExited => self.task is Late,
            ShellEvent::Exited => self.task is Watch,
            ShellEvent::BackoffOver => self.task is Backoff,
            ShellEvent::Quit => true,
        }
    }

    /// The actions that `event` calls for.
    pub open spec fn actions(self, event: ShellEvent) -> Seq<ShellAction> {
        match event {
            ShellEvent::Spawned(pid) => spawn_actions(self.state, pid),
            ShellEvent::Launched(launched) => launch_actions(self.state, launched),
            ShellEvent::LateExited => seq![],
            ShellEvent::Exited => exit_actions(self.state),
            ShellEvent::BackoffOver => restart_actions(self.state),
            ShellEvent::Quit => quit_actions(self.state),
        }
    }

    /// The state after `event`.
    pub open spec fn state_after(self, event: ShellEvent) -> ShellState {
        match event {
            ShellEvent::Spawned(pid) => after_spawn(self.state, pid),
            ShellEvent::Launched(launched) => after_launch(self.state, launched),
            ShellEvent::LateExited => match self.task {
                Task::Late { pid } => after_late_exit(self.state, pid),
                _ => self.state,
            },
            ShellEvent::Exited => after_exit(self.state),
            ShellEvent::BackoffOver => self.state,
            ShellEvent::Quit => after_quit(self.state),
        }
    }

    /// What the worker does after `event`. After a spawn it waits for the
    /// readiness of the process, and when that wait runs out, for its end.
    /// After anything else of its own it takes up the task among the actions
    /// that the event calls for, and ends when there is none. A quit is not its
    /// business.
    pub open spec fn task_after(self, event: ShellEvent) -> Task {
        let actions = self.actions(event);
        if let ShellEvent::Spawned(pid) = event {
            Task::Await { pid }
        } else if event is Quit {
            self.task
        } else if times_out(event) && self.task is Await {
            Task::Late { pid: self.task->Await_pid }
        } else if actions.contains(ShellAction::Watch) {
            Task::Watch
        } else if actions.contains(ShellAction::Backoff { millis: RESTART_DELAY_MS }) {
            Task::Backoff
        } else if actions.contains(ShellAction::Launch) {
            Task::Spawn
        } else {
            Task::Nothing
        }
    }

    /// The moment after `event`.
    pub open spec fn next(self, event: ShellEvent) -> Moment {
        Moment { state: self.state_after(event), task: self.task_after(event) }
    }
}

/// The moment after `events`, from the start.
pub open spec fn moment_after(events: Seq<ShellEvent>) -> Moment
    decreases events.len(),
{
    if events.len() == 0 {
        first_moment()
    } else {
        moment_after(events.drop_last()).next(events.last())
    }
}

/// Whether `events` can come in this order.
pub open spec fn is_history(events: Seq<ShellEvent>) -> bool
    decreases events.len(),
{
    events.len() > 0 ==> {
        &&& is_history(events.drop_last())
        &&& moment_after(events.drop_last()).can_see(events.last())
    }
}

/// The process that was spawned and whose end has not been seen, after
/// `events`. Its end is seen when the watched service exits, when it ends
/// before it is ready, or when it ends after it was not ready in time.
pub open spec fn up_after(events: Seq<ShellEvent>) -> Option<u32>
    decreases events.len(),
{
    if events.len() == 0 {
        None
    } else {
        match events.last() {
            ShellEvent::Spawned(pid) => Some(pid),
            ShellEvent::Exited | ShellEvent::LateExited => None,
            ShellEvent::Launched(Err(ServiceError::ExitedBeforeReady { .. })) => None,
            _ => up_after(events.drop_last()),
        }
    }
}

/// How often the watched service exited, in `events`.
pub open spec fn exits(events: Seq<ShellEvent>) -> nat
    decreases events.len(),
{
    if events.len() == 0 {
        0
    } else {
        exits(events.drop_last()) + if events.last() is Exited {
            1nat
        } else {
            0nat
        }
    }
}

/// How often a launch was called for after the first one, in `events`.
pub open spec fn relaunches(events: Seq<ShellEvent>) -> nat
    decreases events.len(),
{
    if events.len() == 0 {
        0
    } else {
        let before = events.drop_last();
        relaunches(before) + if moment_after(before).actions(events.last()).contains(
            ShellAction::Launch,
        ) {
            1nat
        } else {
            0nat
        }
    }
}

/// How often process id `pid` was spawned, in `events`.
pub open spec fn spawns(events: Seq<ShellEvent>, pid: u32) -> nat
    decreases events.len(),
{
    if events.len() == 0 {
        0
    } else {
        spawns(events.drop_last(), pid) + if events.last() == ShellEvent::Spawned(pid) {
            1nat
        } else {
            0nat
        }
    }
}

/// How often `actions` have process `pid` stopped.
pub open spec fn stops_among(actions: Seq<ShellAction>, pid: u32) -> nat
    decreases actions.len(),
{
    if actions.len() == 0 {
        0
    } else {
        stops_among(actions.drop_last(), pid) + if actions.last() == (ShellAction::StopService {
            pid,
        }) {
            1nat
        } else {
            0nat
        }
    }
}

/// How often process `pid` was to be stopped, in `events`.
pub open spec fn stops(events: Seq<ShellEvent>, pid: u32) -> nat
    decreases events.len(),
{
    if events.len() == 0 {
        0
    } else {
        let before = events.drop_last();
        stops(before, pid) + stops_among(moment_after(before).actions(events.last()), pid)
    }
}

/// The task that each event leaves the worker with.
proof fn lemma_next_task(moment: Moment, event: ShellEvent)
    ensures
        match event {
            ShellEvent::Spawned(pid) => moment.next(event).task == (Task::Await { pid }),
            ShellEvent::Launched(Ok(_)) => if moment.state.quitting {
                moment.next(event).task is Nothing
            } else {
                moment.next(event).task is Watch
            },
            ShellEvent::Launched(Err(_)) => if times_out(event) && moment.task is Await {
                moment.next(event).task == (Task::Late { pid: moment.task->Await_pid })
            } else {
                moment.next(event).task is Nothing
            },
            ShellEvent::LateExited => moment.next(event).task is Nothing,
            ShellEvent::Exited => if moment.state.quitting {
                moment.next(event).task is Nothing
            } else {
                moment.next(event).task is Backoff
            },
            ShellEvent::BackoffOver => if moment.state.quitting {
                moment.next(event).task is Nothing
            } else {
                moment.next(event).task is Spawn
            },
            ShellEvent::Quit => moment.next(event).task == moment.task,
        },
        moment.actions(event).contains(ShellAction::Launch) <==> event is BackoffOver
            && !moment.state.quitting,
{
    let actions = moment.actions(event);
    match event {
        ShellEvent::Launched(Ok(_)) => {
            if !moment.state.quitting {
                assert(actions.last() == ShellAction::Watch);
                assert(actions.contains(ShellAction::Watch));
            }
        },
        ShellEvent::Exited => {
            if !moment.state.quitting {
                assert(actions[0] == ShellAction::Backoff { millis: RESTART_DELAY_MS });
            }
        },
        ShellEvent::BackoffOver => {
            if !moment.state.quitting {
                assert(actions[0] == ShellAction::Launch);
            }
        },
        _ => {},
    }
}

/// What is in the state, at each task.
spec fn state_fits(moment: Moment, up: Option<u32>) -> bool {
    let state = moment.state;
    if state.quitting {
        &&& state.service is None
        &&& state.starting is None
        &&& moment.task matches Task::Await { pid } ==> state.stopping == Some(pid)
    } else {
        &&& state.stopping is None
        &&& match moment.task {
            Task::Spawn | Task::Backoff => state.service is None && state.starting is None && up
                is None,
            Task::Await { pid } => state.service is None && state.starting == Some(pid) && up
                == Some(pid),
            Task::Watch => state.starting is None && (state.service matches Some(handle) && up
                == Some(handle.pid)),
            Task::Late { pid } => state.service is None && state.starting == Some(pid) && up
                == Some(pid),
            Task::Nothing => state.service is None && state.starting is None && up is None,
        }
    }
}

proof fn lemma_state_fits(events: Seq<ShellEvent>)
    requires
        is_history(events),
    ensures
        state_fits(moment_after(events), up_after(events)),
    decreases events.len(),
{
    if events.len() > 0 {
        let before = events.drop_last();
        lemma_state_fits(before);
        lemma_next_task(moment_after(before), events.last());
    }
}

/// Until a quit, a service is held exactly while it is watched.
pub proof fn a_held_service_is_a_watched_one(events: Seq<ShellEvent>)
    requires
        is_history(events),
        !moment_after(events).state.quitting,
    ensures
        moment_after(events).state.service is Some <==> moment_after(events).task is Watch,
{
    lemma_state_fits(events);
}

/// Quitting stops the service before the shell ends, whatever the worker is
/// busy with: the process that is up is stopped, ready or not. A process whose
/// end has been seen is not signalled.
pub proof fn quit_stops_the_process_that_is_up(events: Seq<ShellEvent>)
    requires
        is_history(events),
        !moment_after(events).state.quitting,
    ensures
        moment_after(events).actions(ShellEvent::Quit) == (match up_after(events) {
            Some(pid) => seq![ShellAction::StopService { pid }, ShellAction::Exit { code: 0 }],
            None => seq![ShellAction::Exit { code: 0 }],
        }),
{
    lemma_state_fits(events);
    let moment = moment_after(events);
    let expected = match up_after(events) {
        Some(pid) => seq![ShellAction::StopService { pid }, ShellAction::Exit { code: 0 }],
        None => seq![ShellAction::Exit { code: 0 }],
    };
    assert(moment.actions(ShellEvent::Quit) =~= expected);
}

/// A further quit does nothing but end the shell.
pub proof fn a_further_quit_stops_nothing(events: Seq<ShellEvent>)
    requires
        is_history(events),
        moment_after(events).state.quitting,
    ensures
        moment_after(events).actions(ShellEvent::Quit) == seq![ShellAction::Exit { code: 0 }],
{
    lemma_state_fits(events);
    assert(moment_after(events).actions(ShellEvent::Quit) =~= seq![ShellAction::Exit { code: 0 }]);
}

/// How often each event has a process stopped.
proof fn lemma_stops_of_event(moment: Moment, event: ShellEvent, up: Option<u32>, pid: u32)
    requires
        moment.can_see(event),
        state_fits(moment, up),
    ensures
        stops_among(moment.actions(event), pid) == (if moment.state.quitting {
            if event == ShellEvent::Spawned(pid) {
                1nat
            } else {
                0nat
            }
        } else {
            if event is Quit && up == Some(pid) {
                1nat
            } else {
                0nat
            }
        }),
{
    reveal_with_fuel(stops_among, 4);
    let actions = moment.actions(event);
    if event is Quit {
        match (moment.state.starting, moment.state.service) {
            (Some(p), None) => {
                assert(actions =~= seq![
                    ShellAction::StopService { pid: p },
                    ShellAction::Exit { code: 0 },
                ]);
            },
            (None, Some(handle)) => {
                assert(actions =~= seq![
                    ShellAction::StopService { pid: handle.pid },
                    ShellAction::Exit { code: 0 },
                ]);
            },
            _ => {
                assert(actions =~= seq![ShellAction::Exit { code: 0 }]);
            },
        }
        assert(actions.drop_last().len() == actions.len() - 1);
    }
}

/// Once the shell is quitting, a process that is up is to be stopped: none
/// outlives the shell unseen, not even one that was spawned after the quit.
pub proof fn nothing_up_is_left_out_by_a_quit(events: Seq<ShellEvent>, pid: u32)
    requires
        is_history(events),
        moment_after(events).state.quitting,
        up_after(events) == Some(pid),
    ensures
        stops(events, pid) >= 1,
    decreases events.len(),
{
    if events.len() > 0 {
        let before = events.drop_last();
        let was = moment_after(before);
        lemma_state_fits(before);
        lemma_stops_of_event(was, events.last(), up_after(before), pid);
        if was.state.quitting && up_after(before) == Some(pid) {
            nothing_up_is_left_out_by_a_quit(before, pid);
        }
    }
}

/// Each process is stopped at most once, however often the shell is told to
/// quit, and only what was spawned is stopped.
pub proof fn each_process_is_stopped_at_most_once(events: Seq<ShellEvent>, pid: u32)
    requires
        is_history(events),
    ensures
        stops(events, pid) <= spawns(events, pid),
        !moment_after(events).state.quitting && up_after(events) == Some(pid) ==> stops(events, pid)
            < spawns(events, pid),
    decreases events.len(),
{
    if events.len() > 0 {
        let before = events.drop_last();
        each_process_is_stopped_at_most_once(before, pid);
        lemma_state_fits(before);
        lemma_stops_of_event(moment_after(before), events.last(), up_after(before), pid);
    }
}

/// The service that is held is the one that was launched last.
pub proof fn the_held_service_is_the_last_one_launched(
    events: Seq<ShellEvent>,
    handle: ServiceHandle,
)
    requires
        is_history(events),
        moment_after(events).state.service == Some(handle),
    ensures
        exists|i: int|
            0 <= i < events.len() && #[trigger] events[i] == ShellEvent::Launched(Ok(handle)) && (
            forall|j: int| i < j < events.len() ==> !(#[trigger] events[j] is Launched)),
    decreases events.len(),
{
    let last = events.len() - 1;
    if events.len() > 0 {
        let before = events.drop_last();
        lemma_state_fits(before);
        if events.last() is Launched {
            assert(events[last] == ShellEvent::Launched(Ok(handle)));
        } else {
            the_held_service_is_the_last_one_launched(before, handle);
            let i = choose|i: int|
                0 <= i < before.len() && #[trigger] before[i] == ShellEvent::Launched(Ok(handle))
                    && (forall|j: int|
                    i < j < before.len() ==> !(#[trigger] before[j] is Launched));
            assert(events[i] == before[i]);
            assert forall|j: int| i < j < events.len() implies !(
            #[trigger] events[j] is Launched) by {
                if j < last {
                    assert(events[j] == before[j]);
                }
            }
        }
    }
}

/// Once the shell is quitting it stays so; nothing is launched or put off any
/// more, no service is held or watched, and the window stays where it is.
pub proof fn nothing_restarts_once_quitting(moment: Moment, event: ShellEvent)
    requires
        moment.state.quitting,
    ensures
        moment.next(event).state.quitting,
        !moment.actions(event).contains(ShellAction::Launch),
        !moment.actions(event).contains(ShellAction::Backoff { millis: RESTART_DELAY_MS }),
        !moment.actions(event).contains(ShellAction::Watch),
        forall|url: String| !moment.actions(event).contains(ShellAction::Navigate(url)),
{
}

/// Each unexpected exit restarts the service once: until a quit, there is one
/// relaunch for each exit, but for the one whose backoff is not over yet.
pub proof fn every_unexpected_exit_restarts_once(events: Seq<ShellEvent>)
    requires
        is_history(events),
        !moment_after(events).state.quitting,
    ensures
        relaunches(events) + (if moment_after(events).task is Backoff {
            1nat
        } else {
            0nat
        }) == exits(events),
    decreases events.len(),
{
    if events.len() > 0 {
        let before = events.drop_last();
        lemma_next_task(moment_after(before), events.last());
        every_unexpected_exit_restarts_once(before);
    }
}

/// A quit can only take restarts away: there is never more than one relaunch
/// for each exit.
pub proof fn no_relaunch_without_an_exit(events: Seq<ShellEvent>)
    requires
        is_history(events),
    ensures
        relaunches(events) + (if moment_after(events).task is Backoff {
            1nat
        } else {
            0nat
        }) <= exits(events),
    decreases events.len(),
{
    if events.len() > 0 {
        let before = events.drop_last();
        lemma_next_task(moment_after(before), events.last());
        no_relaunch_without_an_exit(before);
    }
}

/// Whether the worker launches nothing any more: it has ended, or waits for the
/// end of a process that was not ready in time.
pub open spec fn launches_no_more(moment: Moment) -> bool {
    moment.task is Nothing || moment.task is Late
}

/// A launch that fails is reported and not tried again: the worker launches
/// nothing any more, whatever comes.
pub proof fn a_failed_launch_is_not_tried_again(moment: Moment, error: ServiceError)
    ensures
        moment.actions(ShellEvent::Launched(Err(error))) == seq![ShellAction::ReportError(error)],
        launches_no_more(moment.next(ShellEvent::Launched(Err(error)))),
        forall|later: Moment, event: ShellEvent|
            launches_no_more(later) && later.can_see(event) ==> launches_no_more(
                #[trigger] later.next(event),
            ) && !later.actions(event).contains(ShellAction::Launch),
{
    lemma_next_task(moment, ShellEvent::Launched(Err(error)));
    assert forall|later: Moment, event: ShellEvent|
        launches_no_more(later) && later.can_see(event) implies launches_no_more(
        #[trigger] later.next(event),
    ) && !later.actions(event).contains(ShellAction::Launch) by {
        lemma_next_task(later, event);
    }
}

/// Until a quit, a launch, the first or a later one, has the window go to the
/// URL that the service announced.
pub proof fn every_launch_navigates(moment: Moment, pid: u32, url: String)
    requires
        !moment.state.quitting,
    ensures
        ({
            let handle = ServiceHandle { pid, url: Some(url) };
            let launched = ShellEvent::Launched(Ok(handle));
            &&& moment.actions(launched) == seq![ShellAction::Navigate(url), ShellAction::Watch]
            &&& moment.next(launched).state.service == Some(handle)
        }),
{
}

/// Whether some `ShellEvent::Quit` came, in `events`.
pub open spec fn quit_came(events: Seq<ShellEvent>) -> bool {
    exists|i: int| 0 <= i < events.len() && #[trigger] events[i] is Quit
}

/// The shell is quitting from the first quit on, and nothing else makes it so.
pub proof fn only_a_quit_makes_the_shell_quit(events: Seq<ShellEvent>)
    ensures
        moment_after(events).state.quitting <==> quit_came(events),
    decreases events.len(),
{
    if events.len() > 0 {
        let before = events.drop_last();
        only_a_quit_makes_the_shell_quit(before);
        if quit_came(before) {
            let i = choose|i: int| 0 <= i < before.len() && #[trigger] before[i] is Quit;
            assert(events[i] is Quit);
        }
        if events.last() is Quit {
            assert(events[events.len() - 1] is Quit);
        }
        if quit_came(events) && !(events.last() is Quit) {
            let i = choose|i: int| 0 <= i < events.len() && #[trigger] events[i] is Quit;
            assert(before[i] is Quit);
        }
    }
}

/// Only a quit ends the shell, and a quit always does, last of all and with
/// code 0. An unexpected exit of the service calls for one second of backoff
/// and nothing else; one that a quit brought about calls for nothing.
pub proof fn only_a_quit_ends_the_shell(moment: Moment, event: ShellEvent)
    ensures
        event is Quit ==> {
            let actions = moment.actions(event);
            &&& actions.len() > 0
            &&& actions.last() == (ShellAction::Exit { code: 0 })
            &&& forall|i: int|
                0 <= i < actions.len() - 1 ==> #[trigger] actions[i] is StopService
        },
        !(event is Quit) ==> forall|i: int|
            0 <= i < moment.actions(event).len() ==> !(#[trigger] moment.actions(event)[i] is Exit),
        event is Exited ==> moment.actions(event) == (if moment.state.quitting {
            seq![]
        } else {
            seq![ShellAction::Backoff { millis: 1000 }]
        }),
{
}

/// A quit stops what the state holds, each process once: the one that is
/// starting, then the service. After it nothing is held, and a further quit
/// stops nothing.
pub proof fn a_quit_stops_all_that_is_held(state: ShellState, pid: u32)
    ensures
        quit_actions(state).contains(ShellAction::StopService { pid }) <==> state.starting == Some(
            pid,
        ) || (state.service matches Some(handle) && handle.pid == pid),
        quit_actions(state).len() == 1 + (if state.starting is Some {
            1int
        } else {
            0
        }) + (if state.service is Some {
            1int
        } else {
            0
        }),
        state.starting matches Some(first) ==> quit_actions(state)[0]
            == (ShellAction::StopService { pid: first }),
        quit_actions(state).last() == (ShellAction::Exit { code: 0 }),
        after_quit(state).quitting,
        after_quit(state).service is None,
        after_quit(state).starting is None,
        quit_actions(after_quit(state)) == seq![ShellAction::Exit { code: 0 }],
        state.starting is Some ==> after_quit(state).stopping == state.starting,
        state.starting is None ==> after_quit(state).stopping == state.stopping,
{
    let actions = quit_actions(state);
    let stop = ShellAction::StopService { pid };
    if state.starting == Some(pid) {
        assert(actions[0] == stop);
    }
    if let Some(handle) = state.service {
        let at = if state.starting is Some {
            1int
        } else {
            0
        };
        assert(actions[at] == ShellAction::StopService { pid: handle.pid });
    }
    assert(quit_actions(after_quit(state)) =~= seq![ShellAction::Exit { code: 0 }]);
}

/// A quit that overtakes a launch has its process stopped once. When the
/// process is known before the quit, the quit stops it, and neither its
/// readiness nor its failure has it stopped again; when it is spawned after the
/// quit, the spawn stops it. Either way no service is held, and nothing is
/// left to stop.
pub proof fn a_quit_overtakes_a_launch(
    state: ShellState,
    pid: u32,
    launched: Result<ServiceHandle, ServiceError>,
)
    requires
        launched matches Ok(handle) ==> handle.pid == pid,
    ensures
        ({
            let known = after_quit(after_spawn(state, pid));
            let unknown = after_spawn(after_quit(state), pid);
            let rest = match launched {
                Ok(_) => seq![],
                Err(error) => seq![ShellAction::ReportError(error)],
            };
            &&& !state.quitting ==> spawn_actions(state, pid) == Seq::<ShellAction>::empty()
            &&& !state.quitting ==> quit_actions(after_spawn(state, pid)).contains(
                ShellAction::StopService { pid },
            )
            &&& spawn_actions(after_quit(state), pid) == seq![ShellAction::StopService { pid }]
            &&& !state.quitting ==> launch_actions(known, launched) == rest
            &&& launch_actions(unknown, launched) == rest
            &&& quit_actions(after_launch(known, launched)) == seq![ShellAction::Exit { code: 0 }]
            &&& quit_actions(after_launch(unknown, launched)) == seq![ShellAction::Exit { code: 0 }]
        }),
{
    let known = after_quit(after_spawn(state, pid));
    let unknown = after_spawn(after_quit(state), pid);
    if !state.quitting {
        a_quit_stops_all_that_is_held(after_spawn(state, pid), pid);
    }
    assert(quit_actions(after_launch(known, launched)) =~= seq![ShellAction::Exit { code: 0 }]);
    assert(quit_actions(after_launch(unknown, launched)) =~= seq![ShellAction::Exit { code: 0 }]);
}

/// A service that a quitting shell did not know of is stopped as soon as it is
/// launched.
pub proof fn a_stray_service_is_stopped(state: ShellState, handle: ServiceHandle)
    requires
        state.quitting,
        state.stopping != Some(handle.pid),
    ensures
        launch_actions(state, Ok(handle)) == seq![ShellAction::StopService { pid: handle.pid }],
        after_launch(state, Ok(handle)).service is None,
{
}

/// The end of a process that was not ready in time takes that process from the
/// state, and touches nothing else.
pub proof fn a_late_end_is_of_one_process(state: ShellState, pid: u32)
    ensures
        after_late_exit(state, pid).starting != Some(pid),
        state.starting != Some(pid) ==> after_late_exit(state, pid) == state,
        after_late_exit(state, pid).service == state.service,
        after_late_exit(state, pid).stopping == state.stopping,
        after_late_exit(state, pid).quitting == state.quitting,
{
}

/// A launch that ran out of time leaves its process known, so that a quit
/// stops it; after any other failure there is none. The service that is held
/// stays.
pub proof fn a_process_that_is_late_stays_known(state: ShellState, error: ServiceError)
    ensures
        error is ReadyTimeout ==> after_launch(state, Err(error)).starting == state.starting,
        !(error is ReadyTimeout) ==> after_launch(state, Err(error)).starting is None,
        after_launch(state, Err(error)).service == state.service,
        after_launch(state, Err(error)).stopping is None,
        after_launch(state, Err(error)).quitting == state.quitting,
        launch_actions(state, Err(error)) == seq![ShellAction::ReportError(error)],
{
}

/// What the shell does at each event follows from what came before it. Until a
/// quit a launched service is navigated to and watched, its exit is followed by
/// one second of backoff, and that by one launch; a failed launch is reported;
/// a quit stops the process that is up and ends the shell. After a quit a
/// spawned process is stopped, a failed launch is still reported, a further
/// quit ends the shell, and nothing else calls for anything.
pub proof fn the_past_decides_what_an_event_calls_for(past: Seq<ShellEvent>, event: ShellEvent)
    requires
        is_history(past),
        moment_after(past).can_see(event),
    ensures
        moment_after(past).actions(event) == (match event {
            ShellEvent::Spawned(pid) => if quit_came(past) {
                seq![ShellAction::StopService { pid }]
            } else {
                seq![]
            },
            ShellEvent::Launched(Ok(handle)) => if quit_came(past) {
                seq![]
            } else if let Some(url) = handle.url {
                seq![ShellAction::Navigate(url), ShellAction::Watch]
            } else {
                seq![ShellAction::Watch]
            },
            ShellEvent::Launched(Err(error)) => seq![ShellAction::ReportError(error)],
            ShellEvent::LateExited => seq![],
            ShellEvent::Exited => if quit_came(past) {
                seq![]
            } else {
                seq![ShellAction::Backoff { millis: 1000 }]
            },
            ShellEvent::BackoffOver => if quit_came(past) {
                seq![]
            } else {
                seq![ShellAction::Launch]
            },
            ShellEvent::Quit => match (quit_came(past), up_after(past)) {
                (false, Some(pid)) => seq![
                    ShellAction::StopService { pid },
                    ShellAction::Exit { code: 0 },
                ],
                _ => seq![ShellAction::Exit { code: 0 }],
            },
        }),
{
    only_a_quit_makes_the_shell_quit(past);
    lemma_state_fits(past);
    if event is Quit {
        if quit_came(past) {
            a_further_quit_stops_nothing(past);
        } else {
            quit_stops_the_process_that_is_up(past);
        }
    }
}

/// What the shell knows follows from what came before. Until a quit it knows
/// the process that is up, as the service that was launched or as one that is
/// not ready; from a quit on it knows neither.
pub proof fn the_past_decides_what_is_known(past: Seq<ShellEvent>)
    requires
        is_history(past),
    ensures
        ({
            let state = moment_after(past).state;
            if quit_came(past) {
                state.service is None && state.starting is None
            } else {
                match (state.starting, state.service) {
                    (None, None) => up_after(past) is None,
                    (Some(pid), None) => up_after(past) == Some(pid),
                    (None, Some(handle)) => up_after(past) == Some(handle.pid),
                    (Some(_), Some(_)) => false,
                }
            }
        }),
        past.len() > 0 && !quit_came(past) ==> match past.last() {
            ShellEvent::Spawned(pid) => moment_after(past).state.starting == Some(pid),
            ShellEvent::Launched(Ok(handle)) => moment_after(past).state.service == Some(handle),
            _ => true,
        },
{
    only_a_quit_makes_the_shell_quit(past);
    lemma_state_fits(past);
    if past.len() > 0 {
        lemma_state_fits(past.drop_last());
    }
}

/// At any moment, what an event calls for depends on whether the shell is
/// quitting and on what the event brings, and on nothing else.
pub proof fn quitting_decides_what_an_event_calls_for(
    moment: Moment,
    pid: u32,
    handle: ServiceHandle,
)
    ensures
        moment.actions(ShellEvent::Spawned(pid)) == (if moment.state.quitting {
            seq![ShellAction::StopService { pid }]
        } else {
            seq![]
        }),
        moment.actions(ShellEvent::BackoffOver) == (if moment.state.quitting {
            seq![]
        } else {
            seq![ShellAction::Launch]
        }),
        moment.actions(ShellEvent::LateExited).len() == 0,
        !moment.state.quitting ==> moment.actions(ShellEvent::Launched(Ok(handle))) == (
        if let Some(url) = handle.url {
            seq![ShellAction::Navigate(url), ShellAction::Watch]
        } else {
            seq![ShellAction::Watch]
        }),
{
}

/// Each event touches only what it is about: a spawn leaves the service that is
/// held as it is, an exit the process that is starting, and neither of them nor
/// a launch makes the shell quit.
pub proof fn an_event_touches_only_its_own(state: ShellState, pid: u32, handle: ServiceHandle)
    ensures
        after_spawn(state, pid).service == state.service,
        after_spawn(state, pid).quitting == state.quitting,
        !state.quitting ==> after_spawn(state, pid).starting == Some(pid),
        !state.quitting ==> after_spawn(state, pid).stopping == state.stopping,
        state.quitting ==> after_spawn(state, pid).starting is None,
        state.quitting ==> after_spawn(state, pid).stopping == Some(pid),
        after_exit(state).starting == state.starting,
        after_exit(state).stopping == state.stopping,
        after_exit(state).quitting == state.quitting,
        !state.quitting ==> after_exit(state).service is None,
        state.quitting ==> after_exit(state).service == state.service,
        after_launch(state, Ok(handle)).quitting == state.quitting,
        after_launch(state, Ok(handle)).starting is None,
        after_launch(state, Ok(handle)).stopping is None,
        after_launch(state, Ok(handle)).service is Some <==> !state.quitting,
        !state.quitting ==> after_launch(state, Ok(handle)).service == Some(handle),
{
}

} // verus!
