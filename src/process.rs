//! One supervised child: its state machine and its timed transitions.
//!
//! Times are milliseconds on a monotonic clock chosen by the caller; the
//! configured durations are whole seconds.
use vstd::prelude::*;

use crate::config::{AutoRestart, JobConfig, StopSignal};
use crate::text::{decimal, push_decimal};

verus! {

/// Phase of a process whose child is alive.
#[derive(Clone, Copy, Debug, PartialEq, Eq, Structural)]
pub enum RunningStatus {
    /// Past the start window; `started` is the spawn time.
    Running { started: u64 },
    /// Inside the start window opened at `start`.
    StartRequested { start: u64, tries: u32 },
    /// The stop signal was sent at `since`; `restart` spawns again once reaped.
    StopRequested { since: u64, restart: bool },
}

/// Why a process has no live child.
#[derive(Clone, Copy, Debug, PartialEq, Eq, Structural)]
pub enum StoppedStatus {
    /// Exited before being fully started; waits before the next try.
    Backoff { tries: u32, started_at: u64 },
    /// Gave up after too many failed starts.
    Fatal,
    /// Exited on its own with an unexpected status.
    Unexpected,
    /// Exited on its own with an expected status.
    Exited,
    /// Stopped on request.
    Stopped,
    /// Never started.
    Never,
}

#[derive(Clone, Copy, Debug, PartialEq, Eq, Structural)]
pub enum State {
    Stopped(StoppedStatus),
    Running { pid: u32, status: RunningStatus },
}

impl Default for State {
    fn default() -> (r: State)
        ensures
            r == State::Stopped(StoppedStatus::Never),
    {
        State::Stopped(StoppedStatus::Never)
    }
}

/// How a reaped child ended: `code` is `None` when a signal ended it.
#[derive(Clone, Copy, Debug, PartialEq, Eq, Structural)]
pub struct ExitStatus {
    pub code: Option<i32>,
}

/// What the caller must do for a process after a transition.
#[derive(Clone, Copy, Debug, PartialEq, Eq, Structural)]
pub enum Step {
    Idle,
    /// Spawn a child and report the outcome through `Process::start`.
    Spawn,
    /// Send the signal to the pid.
    Signal(u32, StopSignal),
}

/// Why a stop request sent no signal.
#[derive(Clone, Copy, Debug, PartialEq, Eq, Structural)]
pub enum StopError {
    NotRunning,
    AlreadyStopping,
}

/// Why a reap attempt failed.
#[derive(Clone, Copy, Debug, PartialEq, Eq, Structural)]
pub enum CheckStatusError {
    NoChildProcess,
    TryWaitError,
}

pub struct Process {
    /// `"{job}-{replica}"`.
    pub name: String,
    pub state: State,
}

/// Whole seconds in milliseconds.
pub open spec fn ms(secs: nat) -> int {
    (secs * 1000) as int
}

/// Milliseconds from `since` to `now`, zero if the clock is behind.
pub open spec fn elapsed(now: u64, since: u64) -> int {
    if now >= since {
        now - since
    } else {
        0
    }
}

/// The process has a live child.
pub open spec fn is_running(s: State) -> bool {
    s is Running
}

/// Inside the start window.
pub open spec fn is_starting(s: State) -> bool {
    s matches State::Running { status: RunningStatus::StartRequested { .. }, .. }
}

/// Past the start window.
pub open spec fn is_up(s: State) -> bool {
    s matches State::Running { status: RunningStatus::Running { .. }, .. }
}

/// Waiting for the child to stop.
pub open spec fn is_stopping(s: State) -> bool {
    s matches State::Running { status: RunningStatus::StopRequested { .. }, .. }
}

/// Waiting before the next start attempt.
pub open spec fn is_backoff(s: State) -> bool {
    s matches State::Stopped(StoppedStatus::Backoff { .. })
}

/// Consecutive failed starts carried by a state.
pub open spec fn tries_of(s: State) -> nat {
    match s {
        State::Running { status: RunningStatus::StartRequested { tries, .. }, .. } => tries as nat,
        State::Stopped(StoppedStatus::Backoff { tries, .. }) => tries as nat,
        _ => 0,
    }
}

/// How the failed-start count may change from `pre` to `post`: it grows by
/// one from a start to a backoff, is kept from a backoff to a start, and is
/// zero once up, stopping or stopped on request.
pub open spec fn tries_law(pre: State, post: State) -> bool {
    &&& (is_starting(pre) && is_backoff(post)) ==> tries_of(post) == tries_of(pre) + 1
    &&& (is_backoff(pre) && is_starting(post)) ==> tries_of(post) == tries_of(pre)
    &&& (is_up(post) || is_stopping(post) || post == State::Stopped(StoppedStatus::Stopped))
        ==> tries_of(post) == 0
}

/// An exit is expected when its code is listed, or when a signal ended it.
pub open spec fn expected(c: JobConfig, e: ExitStatus) -> bool {
    match e.code {
        Some(code) => c.exitcodes.0@.contains(code),
        None => true,
    }
}

/// The state after a failed start whose count was `tries`.
pub open spec fn failed_start(c: JobConfig, tries: u32, now: u64) -> State {
    if tries < c.startretries {
        State::Stopped(StoppedStatus::Backoff { tries: (tries + 1) as u32, started_at: now })
    } else {
        State::Stopped(StoppedStatus::Fatal)
    }
}

/// The state after a spawn attempt: `spawned` is the child's pid, if any.
pub open spec fn start_state(s: State, c: JobConfig, now: u64, spawned: Option<u32>) -> State {
    let prev = match s {
        State::Stopped(StoppedStatus::Backoff { tries, .. }) => tries,
        _ => 0u32,
    };
    match spawned {
        Some(pid) => State::Running {
            pid,
            status: RunningStatus::StartRequested { start: now, tries: prev },
        },
        None => failed_start(c, prev, now),
    }
}

/// The state after observing the child at `now`; `exit` is what reaping it gave.
pub open spec fn observe(s: State, c: JobConfig, now: u64, exit: Option<ExitStatus>) -> State {
    match s {
        State::Running { pid, status } => match exit {
            None => match status {
                RunningStatus::StartRequested { start, .. } => if elapsed(now, start) >= ms(
                    c.starttime.0 as nat,
                ) {
                    State::Running { pid, status: RunningStatus::Running { started: start } }
                } else {
                    s
                },
                _ => s,
            },
            Some(e) => match status {
                RunningStatus::StopRequested { .. } => State::Stopped(StoppedStatus::Stopped),
                RunningStatus::StartRequested { tries, .. } => failed_start(c, tries, now),
                RunningStatus::Running { .. } => if expected(c, e) {
                    State::Stopped(StoppedStatus::Exited)
                } else {
                    State::Stopped(StoppedStatus::Unexpected)
                },
            },
        },
        State::Stopped(_) => s,
    }
}

/// Whether a stopped state asks for a new spawn at `now`.
pub open spec fn wants_spawn(s: State, c: JobConfig, now: u64) -> bool {
    match s {
        State::Stopped(StoppedStatus::Backoff { tries, started_at }) => elapsed(now, started_at)
            >= ms(tries as nat),
        State::Stopped(StoppedStatus::Unexpected) => c.autorestart != AutoRestart::Never,
        State::Stopped(StoppedStatus::Exited) => c.autorestart == AutoRestart::Always,
        _ => false,
    }
}

/// What a tick asks the caller to do.
pub open spec fn tick_step(s: State, c: JobConfig, now: u64, exit: Option<ExitStatus>) -> Step {
    match s {
        State::Running { pid, status: RunningStatus::StopRequested { since, restart } } => {
            match exit {
                None => if elapsed(now, since) >= ms(c.stoptime.0 as nat) {
                    Step::Signal(pid, StopSignal::Kill)
                } else {
                    Step::Idle
                },
                Some(_) => if restart {
                    Step::Spawn
                } else {
                    Step::Idle
                },
            }
        },
        _ => if wants_spawn(observe(s, c, now, exit), c, now) {
            Step::Spawn
        } else {
            Step::Idle
        },
    }
}

/// The state after a stop request. A process that is already stopping is
/// left as it is: its first request, and whether it restarts, stand.
pub open spec fn stop_state(s: State, now: u64, restart: bool) -> State {
    match s {
        State::Running { pid, status } => match status {
            RunningStatus::StopRequested { .. } => s,
            _ => State::Running { pid, status: RunningStatus::StopRequested { since: now, restart } },
        },
        State::Stopped(StoppedStatus::Backoff { .. }) => State::Stopped(StoppedStatus::Stopped),
        _ => s,
    }
}

/// The state after the shutdown request: a stop request that also cancels
/// a restart still pending on a process that is already stopping.
pub open spec fn shutdown_state(s: State, now: u64) -> State {
    match s {
        State::Running { pid, status: RunningStatus::StopRequested { since, .. } } => State::Running {
            pid,
            status: RunningStatus::StopRequested { since, restart: false },
        },
        _ => stop_state(s, now, false),
    }
}

/// The state after a restart request.
pub open spec fn restart_state(s: State, now: u64) -> State {
    if is_running(s) {
        stop_state(s, now, true)
    } else {
        State::Stopped(StoppedStatus::Stopped)
    }
}

/// The label and figures shown for a state at `now`.
pub open spec fn state_text(s: State, now: u64) -> Seq<char> {
    match s {
        State::Running { pid, status } => match status {
            RunningStatus::Running { started } => "RUNNING (pid: "@ + decimal(pid as nat)
                + ", uptime: "@ + decimal((elapsed(now, started) / 1000) as nat) + ")"@,
            RunningStatus::StartRequested { start, tries } => "STARTING (pid: "@ + decimal(
                pid as nat,
            ) + ", tries: "@ + decimal(tries as nat) + ", since: "@ + decimal(
                (elapsed(now, start) / 1000) as nat,
            ) + ")"@,
            RunningStatus::StopRequested { since, .. } => "STOPPING (pid: "@ + decimal(pid as nat)
                + ", since: "@ + decimal((elapsed(now, since) / 1000) as nat) + ")"@,
        },
        State::Stopped(st) => match st {
            StoppedStatus::Backoff { tries, started_at } => "BACKOFF (restarts: "@ + decimal(
                tries as nat,
            ) + ", since: "@ + decimal((elapsed(now, started_at) / 1000) as nat) + ")"@,
            StoppedStatus::Fatal => "FATAL"@,
            StoppedStatus::Unexpected => "UNEXPECTED"@,
            StoppedStatus::Exited => "EXITED"@,
            _ => "STOPPED"@,
        },
    }
}

/// One line of the status listing.
pub open spec fn status_line(name: Seq<char>, s: State, now: u64) -> Seq<char> {
    name + ": "@ + state_text(s, now) + "\n"@
}

fn elapsed_ms(now: u64, since: u64) -> (r: u64)
    ensures
        r == elapsed(now, since),
{
    if now >= since {
        now - since
    } else {
        0
    }
}

impl Process {
    /// A process that was never started.
    pub fn new(name: String) -> (r: Process)
        ensures
            r.name@ == name@,
            r.state == State::Stopped(StoppedStatus::Never),
    {
        Process { name, state: State::Stopped(StoppedStatus::Never) }
    }

    /// Whether the process has a live child.
    pub fn is_running(&self) -> (r: bool)
        ensures
            r == is_running(self.state),
    {
        match self.state {
            State::Stopped(_) => false,
            State::Running { .. } => true,
        }
    }

    /// Records the outcome of a spawn: the pid of the new child, or `None`
    /// when it could not be spawned, which counts as a failed start.
    pub fn start(&mut self, config: &JobConfig, now: u64, spawned: Option<u32>)
        requires
            !is_running(old(self).state),
        ensures
            final(self).name == old(self).name,
            final(self).state == start_state(old(self).state, *config, now, spawned),
            is_running(final(self).state) <==> spawned.is_some(),
            tries_law(old(self).state, final(self).state),
    {
        let prev = match self.state {
            State::Stopped(StoppedStatus::Backoff { tries, .. }) => tries,
            _ => 0u32,
        };
        self.state = match spawned {
            Some(pid) => State::Running {
                pid,
                status: RunningStatus::StartRequested { start: now, tries: prev },
            },
            None => Self::after_failed_start(config, prev, now),
        };
    }

    fn after_failed_start(config: &JobConfig, tries: u32, now: u64) -> (r: State)
        ensures
            r == failed_start(*config, tries, now),
    {
        if tries < config.startretries {
            State::Stopped(StoppedStatus::Backoff { tries: tries + 1, started_at: now })
        } else {
            State::Stopped(StoppedStatus::Fatal)
        }
    }

    /// Asks the process to stop. Returns the pid to signal; a process in
    /// backoff is stopped without a signal.
    pub fn stop(&mut self, now: u64, restart: bool) -> (r: Result<u32, StopError>)
        ensures
            final(self).name == old(self).name,
            final(self).state == stop_state(old(self).state, now, restart),
            is_running(final(self).state) == is_running(old(self).state),
            tries_law(old(self).state, final(self).state),
            match old(self).state {
                State::Running { pid, status: RunningStatus::StopRequested { .. } } => r == Err::<
                    u32,
                    StopError,
                >(StopError::AlreadyStopping),
                State::Running { pid, .. } => r == Ok::<u32, StopError>(pid),
                State::Stopped(_) => r == Err::<u32, StopError>(StopError::NotRunning),
            },
    {
        match self.state {
            State::Running { pid, status } => match status {
                RunningStatus::StopRequested { .. } => Err(StopError::AlreadyStopping),
                _ => {
                    self.state = State::Running {
                        pid,
                        status: RunningStatus::StopRequested { since: now, restart },
                    };
                    Ok(pid)
                },
            },
            State::Stopped(StoppedStatus::Backoff { .. }) => {
                self.state = State::Stopped(StoppedStatus::Stopped);
                Err(StopError::NotRunning)
            },
            State::Stopped(_) => Err(StopError::NotRunning),
        }
    }

    /// Asks the process to stop for good, as on shutdown: like `stop`
    /// without restart, and a restart still pending on a process that is
    /// already stopping is cancelled.
    pub fn shutdown(&mut self, now: u64) -> (r: Result<u32, StopError>)
        ensures
            final(self).name == old(self).name,
            final(self).state == shutdown_state(old(self).state, now),
            is_running(final(self).state) == is_running(old(self).state),
            tries_law(old(self).state, final(self).state),
            match old(self).state {
                State::Running { pid, status: RunningStatus::StopRequested { .. } } => r == Err::<
                    u32,
                    StopError,
                >(StopError::AlreadyStopping),
                State::Running { pid, .. } => r == Ok::<u32, StopError>(pid),
                State::Stopped(_) => r == Err::<u32, StopError>(StopError::NotRunning),
            },
    {
        match self.state {
            State::Running { pid, status: RunningStatus::StopRequested { since, .. } } => {
                self.state = State::Running {
                    pid,
                    status: RunningStatus::StopRequested { since, restart: false },
                };
                Err(StopError::AlreadyStopping)
            },
            _ => self.stop(now, false),
        }
    }

    /// Forgets the child at once: returns the pid to send SIGKILL to, and
    /// the process counts as stopped from now on, although the caller has
    /// yet to reap that child.
    pub fn kill(&mut self) -> (r: Result<u32, StopError>)
        ensures
            final(self).name == old(self).name,
            match old(self).state {
                State::Running { pid, .. } => {
                    &&& r == Ok::<u32, StopError>(pid)
                    &&& final(self).state == State::Stopped(StoppedStatus::Stopped)
                },
                State::Stopped(StoppedStatus::Backoff { .. }) => {
                    &&& r == Err::<u32, StopError>(StopError::NotRunning)
                    &&& final(self).state == State::Stopped(StoppedStatus::Stopped)
                },
                State::Stopped(_) => {
                    &&& r == Err::<u32, StopError>(StopError::NotRunning)
                    &&& final(self).state == old(self).state
                },
            },
            tries_law(old(self).state, final(self).state),
    {
        match self.state {
            State::Running { pid, .. } => {
                self.state = State::Stopped(StoppedStatus::Stopped);
                Ok(pid)
            },
            State::Stopped(StoppedStatus::Backoff { .. }) => {
                self.state = State::Stopped(StoppedStatus::Stopped);
                Err(StopError::NotRunning)
            },
            State::Stopped(_) => Err(StopError::NotRunning),
        }
    }

    /// Restarts the process: a live child is stopped and spawned again once
    /// reaped; a stopped process is reset and spawned now, with its failed
    /// start count cleared.
    pub fn restart(&mut self, config: &JobConfig, now: u64) -> (r: Step)
        ensures
            final(self).name == old(self).name,
            tries_law(old(self).state, final(self).state),
            final(self).state == restart_state(old(self).state, now),
            match old(self).state {
                State::Running { pid, status } => {
                    &&& r == if status is StopRequested {
                        Step::Idle
                    } else {
                        Step::Signal(pid, config.stopsignal)
                    }
                },
                State::Stopped(_) => r == Step::Spawn,
            },
    {
        match self.state {
            State::Running { .. } => match self.stop(now, true) {
                Ok(pid) => Step::Signal(pid, config.stopsignal),
                Err(_) => Step::Idle,
            },
            State::Stopped(_) => {
                self.state = State::Stopped(StoppedStatus::Stopped);
                Step::Spawn
            },
        }
    }

    /// One tick at `now`; `exit` is what reaping the child gave, `None` when
    /// it is still alive or there is no child.
    pub fn update_status(&mut self, config: &JobConfig, now: u64, exit: Option<ExitStatus>) -> (r:
        Step)
        ensures
            final(self).name == old(self).name,
            final(self).state == observe(old(self).state, *config, now, exit),
            r == tick_step(old(self).state, *config, now, exit),
            is_running(old(self).state) ==> (is_running(final(self).state) <==> exit.is_none()),
            !is_running(old(self).state) ==> !is_running(final(self).state),
            old(self).state == State::Stopped(StoppedStatus::Fatal) ==> final(self).state
                == old(self).state && r == Step::Idle,
            tries_law(old(self).state, final(self).state),
    {
        match self.state {
            State::Running { pid, status } => {
                match exit {
                    None => match status {
                        RunningStatus::StartRequested { start, .. } => {
                            if elapsed_ms(now, start) >= config.starttime.0 as u64 * 1000 {
                                self.state = State::Running {
                                    pid,
                                    status: RunningStatus::Running { started: start },
                                };
                            }
                            Step::Idle
                        },
                        RunningStatus::StopRequested { since, .. } => {
                            if elapsed_ms(now, since) >= config.stoptime.0 as u64 * 1000 {
                                Step::Signal(pid, StopSignal::Kill)
                            } else {
                                Step::Idle
                            }
                        },
                        RunningStatus::Running { .. } => Step::Idle,
                    },
                    Some(e) => match status {
                        RunningStatus::StopRequested { restart, .. } => {
                            self.state = State::Stopped(StoppedStatus::Stopped);
                            if restart {
                                Step::Spawn
                            } else {
                                Step::Idle
                            }
                        },
                        RunningStatus::StartRequested { tries, .. } => {
                            self.state = Self::after_failed_start(config, tries, now);
                            self.policy(config, now)
                        },
                        RunningStatus::Running { .. } => {
                            let ok = match e.code {
                                Some(code) => config.exitcodes.is_valid(code),
                                None => true,
                            };
                            self.state = if ok {
                                State::Stopped(StoppedStatus::Exited)
                            } else {
                                State::Stopped(StoppedStatus::Unexpected)
                            };
                            self.policy(config, now)
                        },
                    },
                }
            },
            State::Stopped(_) => self.policy(config, now),
        }
    }

    fn policy(&self, config: &JobConfig, now: u64) -> (r: Step)
        ensures
            r == if wants_spawn(self.state, *config, now) {
                Step::Spawn
            } else {
                Step::Idle
            },
    {
        let go = match self.state {
            State::Stopped(StoppedStatus::Backoff { tries, started_at }) => elapsed_ms(
                now,
                started_at,
            ) >= tries as u64 * 1000,
            State::Stopped(StoppedStatus::Unexpected) => match config.autorestart {
                AutoRestart::Never => false,
                _ => true,
            },
            State::Stopped(StoppedStatus::Exited) => match config.autorestart {
                AutoRestart::Always => true,
                _ => false,
            },
            _ => false,
        };
        if go {
            Step::Spawn
        } else {
            Step::Idle
        }
    }

    /// Appends this process's status line to `out`.
    pub fn push_status(&self, out: &mut String, now: u64)
        ensures
            final(out)@ == old(out)@ + status_line(self.name@, self.state, now),
    {
        out.append(self.name.as_str());
        out.append(": ");
        match self.state {
            State::Running { pid, status } => match status {
                RunningStatus::Running { started } => {
                    out.append("RUNNING (pid: ");
                    push_decimal(out, pid as u64);
                    out.append(", uptime: ");
                    push_decimal(out, elapsed_ms(now, started) / 1000);
                    out.append(")");
                },
                RunningStatus::StartRequested { start, tries } => {
                    out.append("STARTING (pid: ");
                    push_decimal(out, pid as u64);
                    out.append(", tries: ");
                    push_decimal(out, tries as u64);
                    out.append(", since: ");
                    push_decimal(out, elapsed_ms(now, start) / 1000);
                    out.append(")");
                },
                RunningStatus::StopRequested { since, .. } => {
                    out.append("STOPPING (pid: ");
                    push_decimal(out, pid as u64);
                    out.append(", since: ");
                    push_decimal(out, elapsed_ms(now, since) / 1000);
                    out.append(")");
                },
            },
            State::Stopped(st) => match st {
                StoppedStatus::Backoff { tries, started_at } => {
                    out.append("BACKOFF (restarts: ");
                    push_decimal(out, tries as u64);
                    out.append(", since: ");
                    push_decimal(out, elapsed_ms(now, started_at) / 1000);
                    out.append(")");
                },
                StoppedStatus::Fatal => out.append("FATAL"),
                StoppedStatus::Unexpected => out.append("UNEXPECTED"),
                StoppedStatus::Exited => out.append("EXITED"),
                _ => out.append("STOPPED"),
            },
        }
        out.append("\n");
    }
}

} // verus!
