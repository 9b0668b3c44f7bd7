//! Properties that hold across calls: how the state machine behaves once a
//! process is fatal, how a shutdown winds down, and why reloading twice
//! from the same configuration disturbs nothing.
use vstd::prelude::*;

use crate::config::{AutoRestart, JobConfig, StopSignal};
use crate::config::same_config;
use crate::job::{any_running, exit_seen, job_shut_down, job_ticked, Job};
use crate::jobs::{
    autostarts, contains_job, kept, outdated_running, reloaded, reloaded_with, started_if,
};
use crate::process::{
    is_running, ms, observe, shutdown_state, start_state, stop_state, tick_step, ExitStatus,
    RunningStatus, State, Step, StoppedStatus,
};

verus! {

/// A fatal process stays fatal: no tick moves it or orders a spawn, and a
/// stop request leaves it as it is. Only a start or a restart command moves
/// it.
pub proof fn lemma_fatal_is_final(
    c: JobConfig,
    now: u64,
    exit: Option<ExitStatus>,
    restart: bool,
)
    ensures
        observe(State::Stopped(StoppedStatus::Fatal), c, now, exit) == State::Stopped(
            StoppedStatus::Fatal,
        ),
        tick_step(State::Stopped(StoppedStatus::Fatal), c, now, exit) == Step::Idle,
        stop_state(State::Stopped(StoppedStatus::Fatal), now, restart) == State::Stopped(
            StoppedStatus::Fatal,
        ),
{
}

/// A process is running exactly while its child has not been reaped: a
/// tick leaves the running state when, and only when, it is handed the
/// child's exit; only a spawn that produced a pid enters it.
pub proof fn lemma_running_until_reaped(
    s: State,
    c: JobConfig,
    now: u64,
    exit: Option<ExitStatus>,
    spawned: Option<u32>,
)
    ensures
        is_running(s) ==> (is_running(observe(s, c, now, exit)) <==> exit is None),
        !is_running(s) ==> !is_running(observe(s, c, now, exit)),
        !is_running(s) ==> (is_running(start_state(s, c, now, spawned)) <==> spawned is Some),
{
}

/// No replica waits for a restart that the next tick would order.
pub open spec fn settled(s: State, c: JobConfig) -> bool {
    match s {
        State::Stopped(StoppedStatus::Unexpected) => c.autorestart == AutoRestart::Never,
        State::Stopped(StoppedStatus::Exited) => c.autorestart != AutoRestart::Always,
        _ => true,
    }
}

/// A replica that can only end up stopped: its stop signal went out at or
/// before `t0` with no restart pending, or it is stopped in a state that no
/// tick leaves.
pub open spec fn winding_down(s: State, c: JobConfig, t0: u64) -> bool {
    match s {
        State::Running { status, .. } => match status {
            RunningStatus::StopRequested { since, restart } => !restart && since <= t0,
            _ => false,
        },
        State::Stopped(st) => match st {
            StoppedStatus::Backoff { .. } => false,
            _ => settled(s, c),
        },
    }
}

/// No stop signal of `s` is dated after `t0`.
pub open spec fn stopped_before(s: State, t0: u64) -> bool {
    match s {
        State::Running { status: RunningStatus::StopRequested { since, .. }, .. } => since <= t0,
        _ => true,
    }
}

/// `p` holds of every replica of every job, with its job's options.
pub open spec fn all_replicas(js: Seq<Job>, p: spec_fn(State, JobConfig) -> bool) -> bool {
    forall|j: int, k: int|
        0 <= j < js.len() && 0 <= k < js[j].processes@.len() ==> p(
            #[trigger] js[j].processes@[k].state,
            js[j].config,
        )
}

/// Once shut down, a process winds down: from a settled state, the
/// shutdown request at `t0` leaves a replica that can only end up stopped.
pub proof fn lemma_shutdown_winds_down(s: State, c: JobConfig, t0: u64)
    requires
        settled(s, c),
        stopped_before(s, t0),
    ensures
        winding_down(shutdown_state(s, t0), c, t0),
{
}

/// A tick keeps a winding-down replica winding down and orders no spawn;
/// a reaped child leaves it stopped; and once `stoptime` has passed since
/// `t0`, a child still alive is sent SIGKILL, which it cannot ignore.
pub proof fn lemma_tick_winds_down(
    s: State,
    c: JobConfig,
    t0: u64,
    now: u64,
    exit: Option<ExitStatus>,
)
    requires
        winding_down(s, c, t0),
        now >= t0,
    ensures
        winding_down(observe(s, c, now, exit), c, t0),
        tick_step(s, c, now, exit) != Step::Spawn,
        exit is Some ==> !is_running(observe(s, c, now, exit)),
        !is_running(s) ==> !is_running(observe(s, c, now, exit)),
        is_running(s) && exit is None && now - t0 >= ms(c.stoptime.0 as nat) ==> tick_step(
            s,
            c,
            now,
            exit,
        ) matches Step::Signal(_, StopSignal::Kill),
{
}

/// Shutdown is bounded: after `Jobs::shutdown` at `t0` on a settled set, every
/// replica winds down; each later tick keeps it so, orders no spawn, and
/// from `t0 + stoptime` on orders SIGKILL for every child still alive, so
/// the set stops running one reap later whatever the children do.
pub proof fn lemma_shutdown_bounded(
    pre: Seq<Job>,
    stopped: Seq<Job>,
    t0: u64,
    ticked: Seq<Job>,
    now: u64,
    exits: Seq<(u32, ExitStatus)>,
)
    requires
        all_replicas(pre, |s: State, c: JobConfig| settled(s, c) && stopped_before(s, t0)),
        stopped.len() == pre.len(),
        forall|j: int| 0 <= j < pre.len() ==> job_shut_down(#[trigger] pre[j], stopped[j], t0),
    ensures
        all_replicas(stopped, |s: State, c: JobConfig| winding_down(s, c, t0)),
        now >= t0 && ticked.len() == stopped.len() && (forall|j: int|
            0 <= j < stopped.len() ==> job_ticked(#[trigger] stopped[j], ticked[j], now, exits))
            ==> {
            &&& all_replicas(ticked, |s: State, c: JobConfig| winding_down(s, c, t0))
            &&& forall|j: int, k: int|
                0 <= j < stopped.len() && 0 <= k < stopped[j].processes@.len() ==> {
                    let s = #[trigger] stopped[j].processes@[k].state;
                    let e = exit_seen(s, exits);
                    let c = stopped[j].config;
                    &&& tick_step(s, c, now, e) != Step::Spawn
                    &&& (is_running(s) && e is None && now - t0 >= ms(c.stoptime.0 as nat)
                        ==> tick_step(s, c, now, e) matches Step::Signal(_, StopSignal::Kill))
                    &&& (e is Some ==> !is_running(ticked[j].processes@[k].state))
                }
        },
{
    assert forall|j: int, k: int|
        0 <= j < stopped.len() && 0 <= k < stopped[j].processes@.len() implies winding_down(
        #[trigger] stopped[j].processes@[k].state,
        stopped[j].config,
        t0,
    ) by {
        assert(job_shut_down(pre[j], stopped[j], t0));
        let s = pre[j].processes@[k].state;
        assert(settled(s, pre[j].config) && stopped_before(s, t0));
        lemma_shutdown_winds_down(s, pre[j].config, t0);
    }
    if now >= t0 && ticked.len() == stopped.len() && (forall|j: int|
        0 <= j < stopped.len() ==> job_ticked(#[trigger] stopped[j], ticked[j], now, exits)) {
        assert forall|j: int, k: int|
            0 <= j < ticked.len() && 0 <= k < ticked[j].processes@.len() implies winding_down(
            #[trigger] ticked[j].processes@[k].state,
            ticked[j].config,
            t0,
        ) by {
            assert(job_ticked(stopped[j], ticked[j], now, exits));
            let s = stopped[j].processes@[k].state;
            lemma_tick_winds_down(s, stopped[j].config, t0, now, exit_seen(s, exits));
        }
        assert forall|j: int, k: int|
            0 <= j < stopped.len() && 0 <= k < stopped[j].processes@.len() implies {
            let s = #[trigger] stopped[j].processes@[k].state;
            let e = exit_seen(s, exits);
            let c = stopped[j].config;
            &&& tick_step(s, c, now, e) != Step::Spawn
            &&& (is_running(s) && e is None && now - t0 >= ms(c.stoptime.0 as nat)
                ==> tick_step(s, c, now, e) matches Step::Signal(_, StopSignal::Kill))
            &&& (e is Some ==> !is_running(ticked[j].processes@[k].state))
        } by {
            assert(job_ticked(stopped[j], ticked[j], now, exits));
            let s = stopped[j].processes@[k].state;
            lemma_tick_winds_down(s, stopped[j].config, t0, now, exit_seen(s, exits));
        }
    }
}

/// Reloading is idempotent: every job of a set that a reload from `new`
/// produced is kept by a second reload from `new`, so that second reload
/// stops nothing and leaves every running job, and so every running pid,
/// as it was.
pub proof fn lemma_reload_idempotent(
    pre: Seq<Job>,
    new: Seq<Job>,
    once: Seq<Job>,
    twice: Seq<Job>,
)
    requires
        reloaded(pre, new, once),
        reloaded(once, new, twice),
    ensures
        !outdated_running(once, new),
        forall|r: int| 0 <= r < once.len() ==> kept(#[trigger] once[r], new),
        forall|r: int|
            0 <= r < once.len() && any_running(#[trigger] once[r].processes@) ==> contains_job(
                twice,
                once[r],
            ),
{
    let first = choose|mid: Seq<Job>| reloaded_with(pre, new, mid, once);
    assert forall|r: int| 0 <= r < once.len() implies kept(#[trigger] once[r], new) by {
        assert(started_if(first[r], once[r], autostarts(first[r])));
        assert(kept(first[r], new));
        let k = choose|k: int|
            0 <= k < new.len() && #[trigger] new[k].name@ == first[r].name@ && same_config(
                new[k].config,
                first[r].config,
            );
        assert(new[k].name@ == once[r].name@);
    }
    let mid = choose|mid: Seq<Job>| reloaded_with(once, new, mid, twice);
    assert forall|r: int|
        0 <= r < once.len() && any_running(#[trigger] once[r].processes@) implies contains_job(
        twice,
        once[r],
    ) by {
        assert(kept(once[r], new));
        let k = choose|k: int| 0 <= k < mid.len() && #[trigger] mid[k] == once[r];
        assert(started_if(mid[k], twice[k], autostarts(mid[k])));
        assert(twice[k] == once[r]);
    }
}

} // verus!
