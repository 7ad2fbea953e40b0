//! The adapter lifecycle: a state machine from configuration loading to a
//! graceful stop. The decisions live here; the host loop performs the
//! returned action and feeds the next event back in.

use vstd::prelude::*;

verus! {

/// Where the runtime stands.
#[derive(Clone, Copy, PartialEq, Eq, Structural, Debug)]
pub enum LifecycleState {
    Created,
    Configured,
    Initialized,
    Running,
    ShuttingDown,
    Stopped,
}

/// What just happened to the runtime.
#[derive(Clone, Copy, PartialEq, Eq, Structural, Debug)]
pub enum LifecycleEvent {
    ConfigLoaded,
    InitSucceeded,
    InitFailed,
    RunStarted,
    RunCompleted,
    ShutdownSignal,
    ShutdownFinished,
}

/// What the host loop must do next.
#[derive(Clone, Copy, PartialEq, Eq, Structural, Debug)]
pub enum LifecycleAction {
    CallInit,
    StartRun,
    CallShutdown,
    ExitClean,
    ExitFatal,
    Continue,
}

/// The transition table: every state reacts to the events that concern it
/// and ignores the rest.
pub open spec fn spec_step(s: LifecycleState, e: LifecycleEvent) -> (LifecycleState,
    LifecycleAction) {
    match (s, e) {
        (LifecycleState::Created, LifecycleEvent::ConfigLoaded) => (
            LifecycleState::Configured,
            LifecycleAction::CallInit,
        ),
        (LifecycleState::Configured, LifecycleEvent::InitSucceeded) => (
            LifecycleState::Initialized,
            LifecycleAction::StartRun,
        ),
        (LifecycleState::Configured, LifecycleEvent::InitFailed) => (
            LifecycleState::Stopped,
            LifecycleAction::ExitFatal,
        ),
        (LifecycleState::Initialized, LifecycleEvent::RunStarted) => (
            LifecycleState::Running,
            LifecycleAction::Continue,
        ),
        (LifecycleState::Running, LifecycleEvent::ShutdownSignal) => (
            LifecycleState::ShuttingDown,
            LifecycleAction::CallShutdown,
        ),
        (LifecycleState::Running, LifecycleEvent::RunCompleted) => (
            LifecycleState::Stopped,
            LifecycleAction::ExitClean,
        ),
        (LifecycleState::ShuttingDown, LifecycleEvent::ShutdownFinished) => (
            LifecycleState::Stopped,
            LifecycleAction::ExitClean,
        ),
        (_, _) => (s, LifecycleAction::Continue),
    }
}

/// The runtime's lifecycle bookkeeping: the current state, how often the
/// adapter's shutdown hook was invoked, and whether the lifecycle ended on
/// a path that bypasses the hook (the run loop returned on its own, or
/// initialization failed).
pub struct RunnerMachine {
    pub state: LifecycleState,
    pub shutdown_calls: u64,
    pub ended_without_shutdown: bool,
}

impl RunnerMachine {
    /// The machine's invariant: the shutdown hook is invoked at most once,
    /// exactly when the machine has passed into or through shutdown.
    pub open spec fn wf(self) -> bool {
        &&& self.shutdown_calls <= 1
        &&& (self.state is Created || self.state is Configured || self.state is Initialized
            || self.state is Running) ==> (self.shutdown_calls == 0 && !self.ended_without_shutdown)
        &&& self.state is ShuttingDown ==> (self.shutdown_calls == 1 && !self.ended_without_shutdown)
        &&& self.state is Stopped ==> (if self.ended_without_shutdown {
            self.shutdown_calls == 0
        } else {
            self.shutdown_calls == 1
        })
    }

    /// A fresh machine, before configuration is loaded.
    pub fn new() -> (r: RunnerMachine)
        ensures
            r.wf(),
            r.state == LifecycleState::Created,
            r.shutdown_calls == 0,
    {
        RunnerMachine { state: LifecycleState::Created, shutdown_calls: 0, ended_without_shutdown: false }
    }

    /// Feeds one event in; the next action for the host loop comes back.
    pub fn step(&mut self, event: LifecycleEvent) -> (action: LifecycleAction)
        requires
            old(self).wf(),
        ensures
            final(self).wf(),
            (final(self).state, action) == spec_step(old(self).state, event),
            final(self).shutdown_calls == old(self).shutdown_calls + (
            if action is CallShutdown {
                1int
            } else {
                0int
            }),
            action is CallShutdown ==> old(self).state is Running,
            final(self).shutdown_calls <= 1,
    {
        let s = self.state;
        match (s, event) {
            (LifecycleState::Created, LifecycleEvent::ConfigLoaded) => {
                self.state = LifecycleState::Configured;
                LifecycleAction::CallInit
            },
            (LifecycleState::Configured, LifecycleEvent::InitSucceeded) => {
                self.state = LifecycleState::Initialized;
                LifecycleAction::StartRun
            },
            (LifecycleState::Configured, LifecycleEvent::InitFailed) => {
                self.state = LifecycleState::Stopped;
                self.ended_without_shutdown = true;
                LifecycleAction::ExitFatal
            },
            (LifecycleState::Initialized, LifecycleEvent::RunStarted) => {
                self.state = LifecycleState::Running;
                LifecycleAction::Continue
            },
            (LifecycleState::Running, LifecycleEvent::ShutdownSignal) => {
                self.state = LifecycleState::ShuttingDown;
                self.shutdown_calls = self.shutdown_calls + 1;
                LifecycleAction::CallShutdown
            },
            (LifecycleState::Running, LifecycleEvent::RunCompleted) => {
                self.state = LifecycleState::Stopped;
                self.ended_without_shutdown = true;
                LifecycleAction::ExitClean
            },
            (LifecycleState::ShuttingDown, LifecycleEvent::ShutdownFinished) => {
                self.state = LifecycleState::Stopped;
                LifecycleAction::ExitClean
            },
            _ => LifecycleAction::Continue,
        }
    }
}

/// The shutdown hook is never invoked twice in one lifecycle.
pub proof fn lemma_shutdown_at_most_once(m: RunnerMachine)
    requires
        m.wf(),
    ensures
        m.shutdown_calls <= 1,
{
}

/// A run that completes through the shutdown path invokes the shutdown
/// hook exactly once; a run loop that returns on its own stops without it.
pub proof fn lemma_shutdown_exactly_once(m: RunnerMachine)
    requires
        m.wf(),
        m.state is Stopped || m.state is ShuttingDown,
    ensures
        m.state is ShuttingDown ==> m.shutdown_calls == 1,
        m.state is Stopped && !m.ended_without_shutdown ==> m.shutdown_calls == 1,
        m.state is Stopped && m.ended_without_shutdown ==> m.shutdown_calls == 0,
{
}

} // verus!
