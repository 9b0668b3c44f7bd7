//! A program definition and its replicas.
use vstd::prelude::*;

use crate::config::{JobConfig, StopSignal};
use crate::process::{
    is_running, observe, restart_state, shutdown_state, start_state, status_line, stop_state, tick_step, ExitStatus, Process,
    State, StoppedStatus, Step,
};
use crate::text::{decimal, push_decimal};

verus! {

/// What the caller must do for one replica of a job.
#[derive(Clone, Copy, Debug, PartialEq, Eq, Structural)]
pub enum Order {
    /// Spawn replica `i` and report the outcome through `Job::started`.
    Spawn(usize),
    /// Send the signal to the pid.
    Signal(u32, StopSignal),
}

/// Why a job refused a command.
#[derive(Clone, Copy, Debug, PartialEq, Eq, Structural)]
pub enum JobError {
    AlreadyRunning,
}

pub struct Job {
    pub name: String,
    pub config: JobConfig,
    /// Replica `i` is named `"{name}-{i}"`.
    pub processes: Vec<Process>,
}

/// `f(0) + f(1) + ... + f(n - 1)`.
pub open spec fn gather<T>(n: nat, f: spec_fn(int) -> Seq<T>) -> Seq<T>
    decreases n,
{
    if n == 0 {
        Seq::empty()
    } else {
        gather((n - 1) as nat, f) + f(n - 1)
    }
}

/// Some replica has a live child.
pub open spec fn any_running(ps: Seq<Process>) -> bool {
    exists|i: int| 0 <= i < ps.len() && is_running(#[trigger] ps[i].state)
}

/// `"{job}-{i}"`.
pub open spec fn replica_name(job: Seq<char>, i: nat) -> Seq<char> {
    job + "-"@ + decimal(i)
}

/// The order for replica `i` from its step.
pub open spec fn step_order(i: int, s: Step) -> Seq<Order> {
    match s {
        Step::Idle => Seq::empty(),
        Step::Spawn => seq![Order::Spawn(i as usize)],
        Step::Signal(pid, sig) => seq![Order::Signal(pid, sig)],
    }
}

/// The signal a stop request sends to a process in state `s`, if any.
pub open spec fn stop_order(s: State, sig: StopSignal) -> Seq<Order> {
    match s {
        State::Running { pid, status } => if status is StopRequested {
            Seq::empty()
        } else {
            seq![Order::Signal(pid, sig)]
        },
        State::Stopped(_) => Seq::empty(),
    }
}

/// The first exit listed for `pid`.
pub open spec fn exit_for(exits: Seq<(u32, ExitStatus)>, pid: u32) -> Option<ExitStatus>
    decreases exits.len(),
{
    if exits.len() == 0 {
        None
    } else if exits[0].0 == pid {
        Some(exits[0].1)
    } else {
        exit_for(exits.drop_first(), pid)
    }
}

/// The exit reported for the child of a process in state `s`.
pub open spec fn exit_seen(s: State, exits: Seq<(u32, ExitStatus)>) -> Option<ExitStatus> {
    match s {
        State::Running { pid, .. } => exit_for(exits, pid),
        State::Stopped(_) => None,
    }
}

/// The status listing of a job's replicas.
pub open spec fn job_status(ps: Seq<Process>, now: u64) -> Seq<char> {
    if ps.len() == 0 {
        "No process running\n"@
    } else {
        gather(ps.len(), |i: int| status_line(ps[i].name@, ps[i].state, now))
    }
}

/// The signals `Job::stop` sends.
pub open spec fn stop_orders(job: Job) -> Seq<Order> {
    gather(
        job.processes@.len(),
        |j: int| stop_order(job.processes@[j].state, job.config.stopsignal),
    )
}

/// The orders `Job::restart` gives.
pub open spec fn restart_orders(job: Job) -> Seq<Order> {
    gather(
        job.processes@.len(),
        |j: int|
            if is_running(job.processes@[j].state) {
                stop_order(job.processes@[j].state, job.config.stopsignal)
            } else {
                seq![Order::Spawn(j as usize)]
            },
    )
}

/// The orders `Job::check_status` gives.
pub open spec fn tick_orders(job: Job, now: u64, exits: Seq<(u32, ExitStatus)>) -> Seq<Order> {
    gather(
        job.processes@.len(),
        |j: int|
            step_order(
                j,
                tick_step(
                    job.processes@[j].state,
                    job.config,
                    now,
                    exit_seen(job.processes@[j].state, exits),
                ),
            ),
    )
}

/// The orders `Job::start` gives.
pub open spec fn start_orders(n: nat) -> Seq<Order> {
    Seq::new(n, |i: int| Order::Spawn(i as usize))
}

/// `post` has the name, options and replica names of `pre`.
pub open spec fn same_replicas(pre: Job, post: Job) -> bool {
    &&& post.name == pre.name
    &&& post.config == pre.config
    &&& post.processes@.len() == pre.processes@.len()
    &&& forall|k: int|
        0 <= k < post.processes@.len() ==> #[trigger] post.processes@[k].name
            == pre.processes@[k].name
}

/// `post` is `pre` after `Job::stop` at `now`.
pub open spec fn job_stopped(pre: Job, post: Job, now: u64) -> bool {
    &&& same_replicas(pre, post)
    &&& forall|k: int|
        0 <= k < post.processes@.len() ==> #[trigger] post.processes@[k].state == stop_state(
            pre.processes@[k].state,
            now,
            false,
        )
}

/// `post` is `pre` after `Job::shutdown` at `now`.
pub open spec fn job_shut_down(pre: Job, post: Job, now: u64) -> bool {
    &&& same_replicas(pre, post)
    &&& forall|k: int|
        0 <= k < post.processes@.len() ==> #[trigger] post.processes@[k].state == shutdown_state(
            pre.processes@[k].state,
            now,
        )
}

/// `post` is `pre` after `Job::restart` at `now`.
pub open spec fn job_restarted(pre: Job, post: Job, now: u64) -> bool {
    &&& same_replicas(pre, post)
    &&& forall|k: int|
        0 <= k < post.processes@.len() ==> #[trigger] post.processes@[k].state == restart_state(
            pre.processes@[k].state,
            now,
        )
}

/// `post` is `pre` after `Job::check_status` at `now`.
pub open spec fn job_ticked(pre: Job, post: Job, now: u64, exits: Seq<(u32, ExitStatus)>) -> bool {
    &&& same_replicas(pre, post)
    &&& forall|k: int|
        0 <= k < post.processes@.len() ==> #[trigger] post.processes@[k].state == observe(
            pre.processes@[k].state,
            pre.config,
            now,
            exit_seen(pre.processes@[k].state, exits),
        )
}

/// `post` is `pre` with `numprocs` replicas that were never started.
pub open spec fn job_fresh(pre: Job, post: Job) -> bool {
    &&& post.name == pre.name
    &&& post.config == pre.config
    &&& post.processes@.len() == pre.config.numprocs.0
    &&& forall|k: int|
        0 <= k < post.processes@.len() ==> #[trigger] post.processes@[k].state == State::Stopped(
            StoppedStatus::Never,
        )
    &&& post.named()
    &&& post.wf()
}

/// Unfolds `gather` by one step.
pub proof fn lemma_gather_step<T>(n: nat, f: spec_fn(int) -> Seq<T>)
    ensures
        gather(n + 1, f) == gather(n, f) + f(n as int),
{
    assert(((n + 1) as nat - 1) as nat == n);
}

fn find_exit(exits: &Vec<(u32, ExitStatus)>, pid: u32) -> (r: Option<ExitStatus>)
    ensures
        r == exit_for(exits@, pid),
{
    let mut i: usize = 0;
    assert(exits@.subrange(0, exits@.len() as int) =~= exits@);
    while i < exits.len()
        invariant
            0 <= i <= exits@.len(),
            exit_for(exits@, pid) == exit_for(exits@.subrange(i as int, exits@.len() as int), pid),
        decreases exits@.len() - i,
    {
        let ghost rest = exits@.subrange(i as int, exits@.len() as int);
        assert(rest.drop_first() =~= exits@.subrange(i + 1, exits@.len() as int));
        if exits[i].0 == pid {
            return Some(exits[i].1);
        }
        i = i + 1;
    }
    None
}

impl Job {
    pub open spec fn wf(&self) -> bool {
        &&& self.config.wf()
        &&& self.processes@.len() == 0 || self.processes@.len() == self.config.numprocs.0
    }

    /// Every replica carries its name.
    pub open spec fn named(&self) -> bool {
        forall|i: int|
            0 <= i < self.processes@.len() ==> #[trigger] self.processes@[i].name@ == replica_name(
                self.name@,
                i as nat,
            )
    }

    /// A job with no replicas yet.
    pub fn new(name: String, config: JobConfig) -> (r: Job)
        requires
            config.wf(),
        ensures
            r.name@ == name@,
            r.config == config,
            r.processes@.len() == 0,
            r.wf(),
    {
        Job { name, config, processes: Vec::new() }
    }

    /// Whether some replica has a live child.
    pub fn is_running(&self) -> (r: bool)
        ensures
            r == any_running(self.processes@),
    {
        let mut i: usize = 0;
        while i < self.processes.len()
            invariant
                0 <= i <= self.processes@.len(),
                forall|j: int| 0 <= j < i ==> !is_running(#[trigger] self.processes@[j].state),
            decreases self.processes@.len() - i,
        {
            if self.processes[i].is_running() {
                return true;
            }
            i = i + 1;
        }
        false
    }

    /// Replaces the replicas with `numprocs` that were never started.
    pub fn init(&mut self)
        requires
            old(self).wf(),
            !any_running(old(self).processes@),
        ensures
            job_fresh(*old(self), *final(self)),
    {
        let n = self.config.numprocs.0;
        let mut fresh: Vec<Process> = Vec::new();
        let mut i: u32 = 0;
        while i < n
            invariant
                0 <= i <= n,
                n == self.config.numprocs.0,
                fresh@.len() == i,
                forall|j: int|
                    0 <= j < i ==> #[trigger] fresh@[j].state == State::Stopped(StoppedStatus::Never),
                forall|j: int|
                    0 <= j < i ==> #[trigger] fresh@[j].name@ == replica_name(self.name@, j as nat),
            decreases n - i,
        {
            let mut name = self.name.clone();
            name.append("-");
            push_decimal(&mut name, i as u64);
            fresh.push(Process::new(name));
            i = i + 1;
        }
        self.processes = fresh;
    }

    /// Starts every replica afresh, unless one is still running.
    pub fn start(&mut self) -> (r: Result<Vec<Order>, JobError>)
        requires
            old(self).wf(),
        ensures
            any_running(old(self).processes@) ==> r == Err::<Vec<Order>, JobError>(
                JobError::AlreadyRunning,
            ) && *final(self) == *old(self),
            !any_running(old(self).processes@) ==> r is Ok && job_fresh(*old(self), *final(self))
                && r->Ok_0@ == start_orders(old(self).config.numprocs.0 as nat),
    {
        if self.is_running() {
            return Err(JobError::AlreadyRunning);
        }
        self.init();
        let mut orders: Vec<Order> = Vec::new();
        let mut i: usize = 0;
        while i < self.processes.len()
            invariant
                0 <= i <= self.processes@.len(),
                orders@ == Seq::new(i as nat, |k: int| Order::Spawn(k as usize)),
            decreases self.processes@.len() - i,
        {
            orders.push(Order::Spawn(i));
            i = i + 1;
            assert(orders@ =~= Seq::new(i as nat, |k: int| Order::Spawn(k as usize)));
        }
        Ok(orders)
    }

    /// Records the outcome of spawning replica `i`.
    pub fn started(&mut self, i: usize, now: u64, spawned: Option<u32>)
        requires
            i < old(self).processes@.len(),
            !is_running(old(self).processes@[i as int].state),
        ensures
            final(self).name == old(self).name,
            final(self).config == old(self).config,
            final(self).processes@.len() == old(self).processes@.len(),
            final(self).processes@[i as int].state == start_state(
                old(self).processes@[i as int].state,
                old(self).config,
                now,
                spawned,
            ),
            final(self).processes@[i as int].name == old(self).processes@[i as int].name,
            forall|j: int|
                0 <= j < final(self).processes@.len() && j != i
                    ==> #[trigger] final(self).processes@[j] == old(self).processes@[j],
    {
        self.processes[i].start(&self.config, now, spawned);
    }

    /// Asks every replica to stop with the configured signal.
    pub fn stop(&mut self, now: u64) -> (r: Vec<Order>)
        ensures
            job_stopped(*old(self), *final(self), now),
            r@ == stop_orders(*old(self)),
    {
        let ghost f = |j: int| stop_order(old(self).processes@[j].state, old(self).config.stopsignal);
        let mut orders: Vec<Order> = Vec::new();
        let mut i: usize = 0;
        while i < self.processes.len()
            invariant
                0 <= i <= self.processes@.len(),
                self.processes@.len() == old(self).processes@.len(),
                self.name == old(self).name,
                self.config == old(self).config,
                forall|j: int|
                    0 <= j < i ==> #[trigger] self.processes@[j].state == stop_state(
                            old(self).processes@[j].state,
                            now,
                            false,
                        ),
                forall|j: int|
                    0 <= j < i ==> #[trigger] self.processes@[j].name == old(self).processes@[j].name,
                forall|j: int|
                    i <= j < self.processes@.len() ==> #[trigger] self.processes@[j] == old(self).processes@[j],
                f == (|j: int| stop_order(old(self).processes@[j].state, old(self).config.stopsignal)),
                orders@ == gather(i as nat, f),
            decreases self.processes@.len() - i,
        {
            let signal = self.config.stopsignal;
            let r = self.processes[i].stop(now, false);
            proof {
                lemma_gather_step(i as nat, f);
            }
            assert(f(i as int) == stop_order(old(self).processes@[i as int].state, signal));
            match r {
                Ok(pid) => orders.push(Order::Signal(pid, signal)),
                Err(_) => {},
            }
            i = i + 1;
            assert(orders@ =~= gather(i as nat, f));
        }
        orders
    }

    /// Asks every replica to stop for good, as on shutdown: like `stop`, and
    /// restarts still pending are cancelled.
    pub fn shutdown(&mut self, now: u64) -> (r: Vec<Order>)
        ensures
            job_shut_down(*old(self), *final(self), now),
            r@ == stop_orders(*old(self)),
    {
        let ghost f = |j: int| stop_order(old(self).processes@[j].state, old(self).config.stopsignal);
        let mut orders: Vec<Order> = Vec::new();
        let mut i: usize = 0;
        while i < self.processes.len()
            invariant
                0 <= i <= self.processes@.len(),
                self.processes@.len() == old(self).processes@.len(),
                self.name == old(self).name,
                self.config == old(self).config,
                forall|j: int|
                    0 <= j < i ==> #[trigger] self.processes@[j].state == shutdown_state(
                            old(self).processes@[j].state,
                            now,
                        ),
                forall|j: int|
                    0 <= j < i ==> #[trigger] self.processes@[j].name == old(self).processes@[j].name,
                forall|j: int|
                    i <= j < self.processes@.len() ==> #[trigger] self.processes@[j] == old(self).processes@[j],
                f == (|j: int| stop_order(old(self).processes@[j].state, old(self).config.stopsignal)),
                orders@ == gather(i as nat, f),
            decreases self.processes@.len() - i,
        {
            let signal = self.config.stopsignal;
            let r = self.processes[i].shutdown(now);
            proof {
                lemma_gather_step(i as nat, f);
            }
            assert(f(i as int) == stop_order(old(self).processes@[i as int].state, signal));
            match r {
                Ok(pid) => orders.push(Order::Signal(pid, signal)),
                Err(_) => {},
            }
            i = i + 1;
            assert(orders@ =~= gather(i as nat, f));
        }
        orders
    }

    /// Restarts every replica.
    pub fn restart(&mut self, now: u64) -> (r: Vec<Order>)
        ensures
            job_restarted(*old(self), *final(self), now),
            r@ == restart_orders(*old(self)),
    {
        let ghost f = |j: int|
            if is_running(old(self).processes@[j].state) {
                stop_order(old(self).processes@[j].state, old(self).config.stopsignal)
            } else {
                seq![Order::Spawn(j as usize)]
            };
        let mut orders: Vec<Order> = Vec::new();
        let mut i: usize = 0;
        while i < self.processes.len()
            invariant
                0 <= i <= self.processes@.len(),
                self.processes@.len() == old(self).processes@.len(),
                self.name == old(self).name,
                self.config == old(self).config,
                forall|j: int|
                    0 <= j < i ==> #[trigger] self.processes@[j].state == restart_state(
                            old(self).processes@[j].state,
                            now,
                        ),
                forall|j: int|
                    0 <= j < i ==> #[trigger] self.processes@[j].name == old(self).processes@[j].name,
                forall|j: int|
                    i <= j < self.processes@.len() ==> #[trigger] self.processes@[j] == old(self).processes@[j],
                f == (|j: int|
            if is_running(old(self).processes@[j].state) {
                stop_order(old(self).processes@[j].state, old(self).config.stopsignal)
            } else {
                seq![Order::Spawn(j as usize)]
            }),
                orders@ == gather(i as nat, f),
            decreases self.processes@.len() - i,
        {
            let ghost pre = self.processes@[i as int].state;
            let step = self.processes[i].restart(&self.config, now);
            proof {
                lemma_gather_step(i as nat, f);
                assert(pre == old(self).processes@[i as int].state);
            }
            match step {
                Step::Idle => {},
                Step::Spawn => orders.push(Order::Spawn(i)),
                Step::Signal(pid, sig) => orders.push(Order::Signal(pid, sig)),
            }
            i = i + 1;
            assert(orders@ =~= gather(i as nat, f));
        }
        orders
    }

    /// One tick for every replica at `now`; `exits` lists the children
    /// reaped since the last tick, by pid.
    pub fn check_status(&mut self, now: u64, exits: &Vec<(u32, ExitStatus)>) -> (r: Vec<Order>)
        ensures
            job_ticked(*old(self), *final(self), now, exits@),
            r@ == tick_orders(*old(self), now, exits@),
    {
        let ghost f = |j: int|
            step_order(
                j,
                tick_step(
                    old(self).processes@[j].state,
                    old(self).config,
                    now,
                    exit_seen(old(self).processes@[j].state, exits@),
                ),
            );
        let mut orders: Vec<Order> = Vec::new();
        let mut i: usize = 0;
        while i < self.processes.len()
            invariant
                0 <= i <= self.processes@.len(),
                self.processes@.len() == old(self).processes@.len(),
                self.name == old(self).name,
                self.config == old(self).config,
                forall|j: int|
                    0 <= j < i ==> #[trigger] self.processes@[j].state == observe(
                            old(self).processes@[j].state,
                            old(self).config,
                            now,
                            exit_seen(old(self).processes@[j].state, exits@),
                        ),
                forall|j: int|
                    0 <= j < i ==> #[trigger] self.processes@[j].name == old(self).processes@[j].name,
                forall|j: int|
                    i <= j < self.processes@.len() ==> #[trigger] self.processes@[j] == old(self).processes@[j],
                f == (|j: int|
            step_order(
                j,
                tick_step(
                    old(self).processes@[j].state,
                    old(self).config,
                    now,
                    exit_seen(old(self).processes@[j].state, exits@),
                ),
            )),
                orders@ == gather(i as nat, f),
            decreases self.processes@.len() - i,
        {
            let exit = match self.processes[i].state {
                State::Running { pid, .. } => find_exit(exits, pid),
                State::Stopped(_) => None,
            };
            let ghost pre = self.processes@[i as int].state;
            let step = self.processes[i].update_status(&self.config, now, exit);
            proof {
                lemma_gather_step(i as nat, f);
                assert(pre == old(self).processes@[i as int].state);
                assert(f(i as int) == step_order(i as int, step));
            }
            match step {
                Step::Idle => {},
                Step::Spawn => orders.push(Order::Spawn(i)),
                Step::Signal(pid, sig) => orders.push(Order::Signal(pid, sig)),
            }
            i = i + 1;
            assert(orders@ =~= gather(i as nat, f));
        }
        orders
    }

    /// The status lines of the replicas.
    pub fn print_status(&self, now: u64) -> (r: String)
        ensures
            r@ == job_status(self.processes@, now),
    {
        let mut out = String::new();
        if self.processes.len() == 0 {
            out.append("No process running\n");
            return out;
        }
        let ghost ps = self.processes@;
        let ghost f = |i: int| status_line(ps[i].name@, ps[i].state, now);
        let mut i: usize = 0;
        while i < self.processes.len()
            invariant
                0 <= i <= ps.len(),
                ps == self.processes@,
                f == (|i: int| status_line(ps[i].name@, ps[i].state, now)),
                out@ == gather(i as nat, f),
            decreases ps.len() - i,
        {
            proof {
                lemma_gather_step(i as nat, f);
            }
            self.processes[i].push_status(&mut out, now);
            assert(f(i as int) == status_line(ps[i as int].name@, ps[i as int].state, now));
            i = i + 1;
        }
        out
    }
}

} // verus!
