//! The set of jobs, the commands that target one job or all of them, and
//! the reconciliation of a running set against a new configuration.
use vstd::prelude::*;

use crate::config::{same_config, JobConfig};
use crate::job::{
    any_running, gather, job_fresh, job_restarted, job_shut_down, job_status, job_stopped, job_ticked,
    lemma_gather_step, replica_name, restart_orders, same_replicas, start_orders, stop_orders,
    tick_orders, Job, Order,
};
use crate::process::{is_running, start_state, ExitStatus, State, StoppedStatus};
use crate::text::str_eq;

verus! {

/// Why a command on the job set failed.
#[derive(Clone, Debug)]
pub enum JobsError {
    /// No job has this name.
    NotFound(String),
    /// The job still has a running replica.
    AlreadyRunning(String),
    /// A job name is empty.
    EmptyName,
    /// Two jobs share this name.
    DuplicateName(String),
}

pub struct Jobs {
    pub programs: Vec<Job>,
}

/// Orders of job `j`, each tagged with `j`.
pub open spec fn tag(j: int, os: Seq<Order>) -> Seq<(usize, Order)> {
    os.map_values(|o: Order| (j as usize, o))
}

/// No two jobs share a name.
pub open spec fn unique_names(js: Seq<Job>) -> bool {
    forall|i: int, k: int|
        0 <= i < js.len() && 0 <= k < js.len() && i != k ==> #[trigger] js[i].name@
            != #[trigger] js[k].name@
}

/// Some job is called `name`.
pub open spec fn has_name(js: Seq<Job>, name: Seq<char>) -> bool {
    exists|i: int| 0 <= i < js.len() && #[trigger] js[i].name@ == name
}

/// Some replica of some job has a live child.
pub open spec fn set_running(js: Seq<Job>) -> bool {
    exists|i: int| 0 <= i < js.len() && any_running(#[trigger] js[i].processes@)
}

/// Job `j` of the current set survives a reload to `new` untouched: `new`
/// has a job of that name with the same options.
pub open spec fn kept(j: Job, new: Seq<Job>) -> bool {
    exists|k: int|
        0 <= k < new.len() && #[trigger] new[k].name@ == j.name@ && same_config(
            new[k].config,
            j.config,
        )
}

/// Some job that a reload to `new` removes or replaces still runs.
pub open spec fn outdated_running(js: Seq<Job>, new: Seq<Job>) -> bool {
    exists|i: int| 0 <= i < js.len() && !kept(#[trigger] js[i], new) && any_running(js[i].processes@)
}

/// The status listing of every job, each under a heading.
pub open spec fn set_status(js: Seq<Job>, now: u64) -> Seq<char> {
    gather(
        js.len(),
        |i: int| "Job status "@ + js[i].name@ + ":\n"@ + job_status(js[i].processes@, now) + "\n"@,
    )
}

/// Every replica of `j` was never started.
pub open spec fn never_started(j: Job) -> bool {
    forall|k: int|
        0 <= k < j.processes@.len() ==> #[trigger] j.processes@[k].state == State::Stopped(
            StoppedStatus::Never,
        )
}

/// Whether a start request on `j` starts it: not while a replica runs.
pub open spec fn starts(j: Job) -> bool {
    !any_running(j.processes@)
}

/// Whether the autostart pass starts `j`.
pub open spec fn autostarts(j: Job) -> bool {
    j.config.autostart && !any_running(j.processes@)
}

/// `post` is `pre` after a start when `go` holds, else `pre` itself.
pub open spec fn started_if(pre: Job, post: Job, go: bool) -> bool {
    if go {
        job_fresh(pre, post)
    } else {
        post == pre
    }
}

/// The spawn orders of a start when `go` holds.
pub open spec fn start_orders_if(j: Job, go: bool) -> Seq<Order> {
    if go {
        start_orders(j.config.numprocs.0 as nat)
    } else {
        Seq::empty()
    }
}

/// `post` is `pre` but for job `i`.
pub open spec fn only_changed(pre: Seq<Job>, post: Seq<Job>, i: int) -> bool {
    &&& post.len() == pre.len()
    &&& forall|j: int| 0 <= j < post.len() && j != i ==> #[trigger] post[j] == pre[j]
}

/// `j` is one of `js`.
pub open spec fn contains_job(js: Seq<Job>, j: Job) -> bool {
    exists|r: int| 0 <= r < js.len() && #[trigger] js[r] == j
}

/// The set after a reload from `pre` to `new`, before the autostart pass:
/// jobs of `new` by name and options, each either a kept job of `pre`,
/// untouched, or the job of `new`.
pub open spec fn merged(pre: Seq<Job>, new: Seq<Job>, post: Seq<Job>) -> bool {
    &&& forall|n: Seq<char>| has_name(post, n) <==> has_name(new, n)
    &&& forall|r: int| 0 <= r < post.len() ==> kept(#[trigger] post[r], new)
    &&& forall|r: int|
        0 <= r < post.len() ==> (exists|i: int|
            0 <= i < pre.len() && pre[i] == #[trigger] post[r] && kept(pre[i], new)) || contains_job(
            new,
            post[r],
        )
    &&& forall|i: int| 0 <= i < pre.len() && kept(#[trigger] pre[i], new) ==> contains_job(post, pre[i])
}

/// `post` is the set after a reload from `pre` to `new`: `mid` merged,
/// then the autostart pass.
pub open spec fn reloaded_with(pre: Seq<Job>, new: Seq<Job>, mid: Seq<Job>, post: Seq<Job>) -> bool {
    &&& merged(pre, new, mid)
    &&& post.len() == mid.len()
    &&& forall|r: int|
        0 <= r < post.len() ==> started_if(#[trigger] mid[r], post[r], autostarts(mid[r]))
}

/// `post` is the set after a reload from `pre` to `new`.
pub open spec fn reloaded(pre: Seq<Job>, new: Seq<Job>, post: Seq<Job>) -> bool {
    exists|mid: Seq<Job>| reloaded_with(pre, new, mid, post)
}

/// `post` and `r` are the set and result of `Jobs::stop(name)` on `pre`.
pub open spec fn stop_named(
    pre: Seq<Job>,
    name: Seq<char>,
    now: u64,
    post: Seq<Job>,
    r: Result<Vec<(usize, Order)>, JobsError>,
) -> bool {
    &&& name.len() == 0 ==> {
        &&& r is Ok
        &&& post.len() == pre.len()
        &&& forall|j: int| 0 <= j < post.len() ==> job_stopped(#[trigger] pre[j], post[j], now)
        &&& r->Ok_0@ == gather(pre.len(), |j: int| tag(j, stop_orders(pre[j])))
    }
    &&& name.len() > 0 && !has_name(pre, name) ==> {
        &&& r matches Err(JobsError::NotFound(n)) && n@ == name
        &&& post == pre
    }
    &&& name.len() > 0 && has_name(pre, name) ==> exists|i: int|
        0 <= i < pre.len() && #[trigger] pre[i].name@ == name && only_changed(pre, post, i)
            && job_stopped(pre[i], post[i], now) && r is Ok && r->Ok_0@ == tag(
            i,
            stop_orders(pre[i]),
        )
}

/// `post` and `r` are the set and result of `Jobs::restart(name)` on `pre`.
pub open spec fn restart_named(
    pre: Seq<Job>,
    name: Seq<char>,
    now: u64,
    post: Seq<Job>,
    r: Result<Vec<(usize, Order)>, JobsError>,
) -> bool {
    &&& name.len() == 0 ==> {
        &&& r is Ok
        &&& post.len() == pre.len()
        &&& forall|j: int| 0 <= j < post.len() ==> job_restarted(#[trigger] pre[j], post[j], now)
        &&& r->Ok_0@ == gather(pre.len(), |j: int| tag(j, restart_orders(pre[j])))
    }
    &&& name.len() > 0 && !has_name(pre, name) ==> {
        &&& r matches Err(JobsError::NotFound(n)) && n@ == name
        &&& post == pre
    }
    &&& name.len() > 0 && has_name(pre, name) ==> exists|i: int|
        0 <= i < pre.len() && #[trigger] pre[i].name@ == name && only_changed(pre, post, i)
            && job_restarted(pre[i], post[i], now) && r is Ok && r->Ok_0@ == tag(
            i,
            restart_orders(pre[i]),
        )
}

/// `post` and `r` are the set and result of `Jobs::start(name)` on `pre`.
pub open spec fn start_named(
    pre: Seq<Job>,
    name: Seq<char>,
    post: Seq<Job>,
    r: Result<Vec<(usize, Order)>, JobsError>,
) -> bool {
    &&& name.len() == 0 ==> {
        &&& r is Ok
        &&& post.len() == pre.len()
        &&& forall|j: int|
            0 <= j < post.len() ==> started_if(#[trigger] pre[j], post[j], starts(pre[j]))
        &&& r->Ok_0@ == gather(
            pre.len(),
            |j: int| tag(j, start_orders_if(pre[j], starts(pre[j]))),
        )
    }
    &&& name.len() > 0 && !has_name(pre, name) ==> {
        &&& r matches Err(JobsError::NotFound(n)) && n@ == name
        &&& post == pre
    }
    &&& name.len() > 0 && has_name(pre, name) ==> exists|i: int|
        0 <= i < pre.len() && #[trigger] pre[i].name@ == name && if starts(pre[i]) {
            &&& only_changed(pre, post, i)
            &&& job_fresh(pre[i], post[i])
            &&& r is Ok
            &&& r->Ok_0@ == tag(i, start_orders(pre[i].config.numprocs.0 as nat))
        } else {
            &&& r matches Err(JobsError::AlreadyRunning(n)) && n@ == name
            &&& post == pre
        }
}

/// A set stays well formed when every job keeps its name and stays well
/// formed.
proof fn lemma_wf_kept(pre: Jobs, post: Jobs)
    requires
        pre.wf(),
        post.programs@.len() == pre.programs@.len(),
        forall|j: int|
            0 <= j < post.programs@.len() ==> {
                &&& (#[trigger] post.programs@[j]).name == pre.programs@[j].name
                &&& post.programs@[j].wf()
                &&& post.programs@[j].named()
            },
    ensures
        post.wf(),
{
    assert forall|i: int, k: int|
        0 <= i < post.programs@.len() && 0 <= k < post.programs@.len() && i != k implies #[trigger] post.programs@[i].name@
            != #[trigger] post.programs@[k].name@ by {
        assert(pre.programs@[i].name@ != pre.programs@[k].name@);
    }
}

proof fn lemma_same_replicas_wf(pre: Job, post: Job)
    requires
        pre.wf(),
        pre.named(),
        same_replicas(pre, post),
    ensures
        post.wf(),
        post.named(),
{
    assert forall|i: int| 0 <= i < post.processes@.len() implies #[trigger] post.processes@[i].name@
        == replica_name(post.name@, i as nat) by {
        assert(post.processes@[i].name == pre.processes@[i].name);
    }
}

fn push_tagged(out: &mut Vec<(usize, Order)>, j: usize, os: Vec<Order>)
    ensures
        final(out)@ == old(out)@ + tag(j as int, os@),
{
    let mut i: usize = 0;
    while i < os.len()
        invariant
            0 <= i <= os@.len(),
            out@ == old(out)@ + tag(j as int, os@.subrange(0, i as int)),
        decreases os@.len() - i,
    {
        out.push((j, os[i]));
        i = i + 1;
        assert(out@ =~= old(out)@ + tag(j as int, os@.subrange(0, i as int)));
    }
    assert(os@.subrange(0, os@.len() as int) =~= os@);
}

fn is_kept(job: &Job, new: &Jobs) -> (r: bool)
    ensures
        r == kept(*job, new.programs@),
{
    let mut k: usize = 0;
    while k < new.programs.len()
        invariant
            0 <= k <= new.programs@.len(),
            forall|m: int|
                0 <= m < k ==> !(#[trigger] new.programs@[m].name@ == job.name@ && same_config(
                    new.programs@[m].config,
                    job.config,
                )),
        decreases new.programs@.len() - k,
    {
        if new.programs[k].name == job.name && new.programs[k].config == job.config {
            return true;
        }
        k = k + 1;
    }
    false
}

fn name_taken(js: &Vec<Job>, name: &String) -> (r: bool)
    ensures
        r == has_name(js@, name@),
{
    let mut k: usize = 0;
    while k < js.len()
        invariant
            0 <= k <= js@.len(),
            forall|m: int| 0 <= m < k ==> #[trigger] js@[m].name@ != name@,
        decreases js@.len() - k,
    {
        if js[k].name == *name {
            return true;
        }
        k = k + 1;
    }
    false
}

impl Jobs {
    pub open spec fn wf(&self) -> bool {
        &&& unique_names(self.programs@)
        &&& forall|i: int|
            0 <= i < self.programs@.len() ==> {
                &&& (#[trigger] self.programs@[i]).wf()
                &&& self.programs@[i].named()
                &&& self.programs@[i].name@.len() > 0
            }
    }

    /// An empty set.
    pub fn new() -> (r: Jobs)
        ensures
            r.programs@.len() == 0,
            r.wf(),
    {
        Jobs { programs: Vec::new() }
    }

    /// The set of the given programs, each with `numprocs` replicas that
    /// were never started. Names must be non-empty and distinct.
    pub fn from_configs(entries: Vec<(String, JobConfig)>) -> (r: Result<Jobs, JobsError>)
        requires
            forall|i: int| 0 <= i < entries@.len() ==> (#[trigger] entries@[i]).1.wf(),
        ensures
            match r {
                Ok(js) => {
                    &&& js.wf()
                    &&& js.programs@.len() == entries@.len()
                    &&& forall|i: int|
                        0 <= i < entries@.len() ==> {
                            &&& #[trigger] js.programs@[i].name@ == entries@[i].0@
                            &&& js.programs@[i].config == entries@[i].1
                            &&& !any_running(js.programs@[i].processes@)
                            &&& never_started(js.programs@[i])
                            &&& js.programs@[i].named()
                            &&& js.programs@[i].processes@.len() == entries@[i].1.numprocs.0
                        }
                },
                Err(JobsError::EmptyName) => exists|i: int|
                    0 <= i < entries@.len() && (#[trigger] entries@[i]).0@.len() == 0,
                Err(JobsError::DuplicateName(n)) => exists|i: int, k: int|
                    0 <= i < k < entries@.len() && #[trigger] entries@[i].0@ == n@
                        && #[trigger] entries@[k].0@ == n@,
                Err(_) => false,
            },
            r is Ok <==> (forall|i: int|
                0 <= i < entries@.len() ==> (#[trigger] entries@[i]).0@.len() > 0) && (forall|
                i: int,
                k: int,
            |
                0 <= i < k < entries@.len() ==> #[trigger] entries@[i].0@ != #[trigger] entries@[k].0@),
    {
        let ghost orig = entries@;
        let mut rest = entries;
        let mut programs: Vec<Job> = Vec::new();
        while rest.len() > 0
            invariant
                orig == entries@,
                programs@.len() + rest@.len() == orig.len(),
                rest@ == orig.subrange(programs@.len() as int, orig.len() as int),
                forall|i: int| 0 <= i < orig.len() ==> (#[trigger] orig[i]).1.wf(),
                forall|i: int| 0 <= i < programs@.len() ==> (#[trigger] orig[i]).0@.len() > 0,
                forall|i: int, k: int|
                    0 <= i < k < programs@.len() ==> #[trigger] orig[i].0@ != #[trigger] orig[k].0@,
                forall|i: int|
                    0 <= i < programs@.len() ==> {
                        &&& #[trigger] programs@[i].name@ == orig[i].0@
                        &&& programs@[i].config == orig[i].1
                        &&& !any_running(programs@[i].processes@)
                        &&& never_started(programs@[i])
                        &&& programs@[i].processes@.len() == orig[i].1.numprocs.0
                        &&& programs@[i].wf()
                        &&& programs@[i].named()
                    },
            decreases rest@.len(),
        {
            let ghost at = programs@.len() as int;
            let (name, config) = rest.remove(0);
            assert(rest@ =~= orig.subrange(at + 1, orig.len() as int));
            assert(name@ == orig[at].0@ && config == orig[at].1);
            if name.as_str().unicode_len() == 0 {
                assert(orig[at].0@.len() == 0);
                return Err(JobsError::EmptyName);
            }
            let mut k: usize = 0;
            while k < programs.len()
                invariant
                    0 <= k <= programs@.len(),
                    programs@.len() == at,
                    at < orig.len(),
                    orig == entries@,
                    name@ == orig[at].0@,
                    forall|i: int| 0 <= i < programs@.len() ==> #[trigger] programs@[i].name@ == orig[i].0@,
                    forall|i: int| 0 <= i < k ==> #[trigger] orig[i].0@ != name@,
                decreases programs@.len() - k,
            {
                if programs[k].name == name {
                    assert(orig[k as int].0@ == name@ && orig[at].0@ == name@ && k < at);
                    return Err(JobsError::DuplicateName(name));
                }
                k = k + 1;
            }
            let mut job = Job::new(name, config);
            job.init();
            assert(!any_running(job.processes@));
            programs.push(job);
        }
        let js = Jobs { programs };
        assert forall|i: int, k: int|
            0 <= i < js.programs@.len() && 0 <= k < js.programs@.len() && i != k implies #[trigger] js.programs@[i].name@
                != #[trigger] js.programs@[k].name@ by {
            if i < k {
                assert(orig[i].0@ != orig[k].0@);
            } else {
                assert(orig[k].0@ != orig[i].0@);
            }
        }
        assert forall|i: int| 0 <= i < js.programs@.len() implies {
            &&& (#[trigger] js.programs@[i]).wf()
            &&& js.programs@[i].named()
            &&& js.programs@[i].name@.len() > 0
        } by {
            assert(js.programs@[i].name@ == orig[i].0@);
        }
        assert(forall|i: int|
            0 <= i < entries@.len() ==> #[trigger] js.programs@[i].name@ == entries@[i].0@);
        Ok(js)
    }
    /// The index of the job called `name`.
    pub fn find(&self, name: &str) -> (r: Option<usize>)
        requires
            self.wf(),
        ensures
            match r {
                Some(i) => i < self.programs@.len() && self.programs@[i as int].name@ == name@,
                None => !has_name(self.programs@, name@),
            },
    {
        let mut i: usize = 0;
        while i < self.programs.len()
            invariant
                0 <= i <= self.programs@.len(),
                forall|k: int| 0 <= k < i ==> #[trigger] self.programs@[k].name@ != name@,
            decreases self.programs@.len() - i,
        {
            if str_eq(self.programs[i].name.as_str(), name) {
                return Some(i);
            }
            i = i + 1;
        }
        None
    }

    /// Whether some replica of some job is running.
    pub fn any_running(&self) -> (r: bool)
        ensures
            r == set_running(self.programs@),
    {
        let mut i: usize = 0;
        while i < self.programs.len()
            invariant
                0 <= i <= self.programs@.len(),
                forall|k: int| 0 <= k < i ==> !any_running(#[trigger] self.programs@[k].processes@),
            decreases self.programs@.len() - i,
        {
            if self.programs[i].is_running() {
                return true;
            }
            i = i + 1;
        }
        false
    }

    /// The status of every job, each under a heading with its name.
    pub fn status_all(&self, now: u64) -> (r: String)
        ensures
            r@ == set_status(self.programs@, now),
    {
        let ghost js = self.programs@;
        let ghost f = |i: int|
            "Job status "@ + js[i].name@ + ":\n"@ + job_status(js[i].processes@, now) + "\n"@;
        let mut out = String::new();
        let mut i: usize = 0;
        while i < self.programs.len()
            invariant
                0 <= i <= js.len(),
                js == self.programs@,
                f == (|i: int|
                    "Job status "@ + js[i].name@ + ":\n"@ + job_status(js[i].processes@, now)
                        + "\n"@),
                out@ == gather(i as nat, f),
            decreases js.len() - i,
        {
            proof {
                lemma_gather_step(i as nat, f);
            }
            out.append("Job status ");
            out.append(self.programs[i].name.as_str());
            out.append(":\n");
            let st = self.programs[i].print_status(now);
            out.append(st.as_str());
            out.append("\n");
            assert(out@ =~= gather((i + 1) as nat, f));
            i = i + 1;
        }
        out
    }

    /// The status of the job called `name`, or of every job when `name` is
    /// empty.
    pub fn status(&self, name: &str, now: u64) -> (r: Result<String, JobsError>)
        requires
            self.wf(),
        ensures
            name@.len() == 0 ==> r is Ok && r->Ok_0@ == set_status(self.programs@, now),
            name@.len() > 0 && has_name(self.programs@, name@) ==> r is Ok && exists|i: int|
                0 <= i < self.programs@.len() && #[trigger] self.programs@[i].name@ == name@
                    && r->Ok_0@ == job_status(self.programs@[i].processes@, now),
            name@.len() > 0 && !has_name(self.programs@, name@) ==> (r matches Err(
                JobsError::NotFound(n),
            ) && n@ == name@),
    {
        if name.is_empty() {
            return Ok(self.status_all(now));
        }
        match self.find(name) {
            Some(i) => Ok(self.programs[i].print_status(now)),
            None => Err(JobsError::NotFound(name.to_owned())),
        }
    }
    /// Asks every job to stop.
    pub fn stop_all(&mut self, now: u64) -> (r: Vec<(usize, Order)>)
        requires
            old(self).wf(),
        ensures
            final(self).wf(),
            final(self).programs@.len() == old(self).programs@.len(),
            forall|j: int|
                0 <= j < final(self).programs@.len() ==> job_stopped(
                    #[trigger] old(self).programs@[j],
                    final(self).programs@[j],
                    now,
                ),
            r@ == gather(
                old(self).programs@.len(),
                |j: int| tag(j, stop_orders(old(self).programs@[j])),
            ),
    {
        let ghost f = |j: int| tag(j, stop_orders(old(self).programs@[j]));
        let mut out: Vec<(usize, Order)> = Vec::new();
        let mut i: usize = 0;
        while i < self.programs.len()
            invariant
                0 <= i <= self.programs@.len(),
                self.programs@.len() == old(self).programs@.len(),
                old(self).wf(),
                f == (|j: int| tag(j, stop_orders(old(self).programs@[j]))),
                forall|j: int|
                    0 <= j < i ==> job_stopped(
                        #[trigger] old(self).programs@[j],
                        self.programs@[j],
                        now,
                    ),
                forall|j: int|
                    i <= j < self.programs@.len() ==> #[trigger] self.programs@[j] == old(self).programs@[j],
                out@ == gather(i as nat, f),
            decreases self.programs@.len() - i,
        {
            let os = self.programs[i].stop(now);
            proof {
                lemma_gather_step(i as nat, f);
            }
            push_tagged(&mut out, i, os);
            i = i + 1;
        }
        proof {
            assert forall|j: int| 0 <= j < self.programs@.len() implies {
                &&& (#[trigger] self.programs@[j]).name == old(self).programs@[j].name
                &&& self.programs@[j].wf()
                &&& self.programs@[j].named()
            } by {
                assert(job_stopped(old(self).programs@[j], self.programs@[j], now));
                lemma_same_replicas_wf(old(self).programs@[j], self.programs@[j]);
            }
            lemma_wf_kept(*old(self), *self);
        }
        out
    }

    /// Asks every job to stop for good, as on shutdown: restarts still
    /// pending on replicas that are already stopping are cancelled.
    pub fn shutdown(&mut self, now: u64) -> (r: Vec<(usize, Order)>)
        requires
            old(self).wf(),
        ensures
            final(self).wf(),
            final(self).programs@.len() == old(self).programs@.len(),
            forall|j: int|
                0 <= j < final(self).programs@.len() ==> job_shut_down(
                    #[trigger] old(self).programs@[j],
                    final(self).programs@[j],
                    now,
                ),
            r@ == gather(
                old(self).programs@.len(),
                |j: int| tag(j, stop_orders(old(self).programs@[j])),
            ),
    {
        let ghost f = |j: int| tag(j, stop_orders(old(self).programs@[j]));
        let mut out: Vec<(usize, Order)> = Vec::new();
        let mut i: usize = 0;
        while i < self.programs.len()
            invariant
                0 <= i <= self.programs@.len(),
                self.programs@.len() == old(self).programs@.len(),
                old(self).wf(),
                f == (|j: int| tag(j, stop_orders(old(self).programs@[j]))),
                forall|j: int|
                    0 <= j < i ==> job_shut_down(
                        #[trigger] old(self).programs@[j],
                        self.programs@[j],
                        now,
                    ),
                forall|j: int|
                    i <= j < self.programs@.len() ==> #[trigger] self.programs@[j] == old(self).programs@[j],
                out@ == gather(i as nat, f),
            decreases self.programs@.len() - i,
        {
            let os = self.programs[i].shutdown(now);
            proof {
                lemma_gather_step(i as nat, f);
            }
            push_tagged(&mut out, i, os);
            i = i + 1;
        }
        proof {
            assert forall|j: int| 0 <= j < self.programs@.len() implies {
                &&& (#[trigger] self.programs@[j]).name == old(self).programs@[j].name
                &&& self.programs@[j].wf()
                &&& self.programs@[j].named()
            } by {
                assert(job_shut_down(old(self).programs@[j], self.programs@[j], now));
                lemma_same_replicas_wf(old(self).programs@[j], self.programs@[j]);
            }
            lemma_wf_kept(*old(self), *self);
        }
        out
    }

    /// Restarts every job.
    pub fn restart_all(&mut self, now: u64) -> (r: Vec<(usize, Order)>)
        requires
            old(self).wf(),
        ensures
            final(self).wf(),
            final(self).programs@.len() == old(self).programs@.len(),
            forall|j: int|
                0 <= j < final(self).programs@.len() ==> job_restarted(
                    #[trigger] old(self).programs@[j],
                    final(self).programs@[j],
                    now,
                ),
            r@ == gather(
                old(self).programs@.len(),
                |j: int| tag(j, restart_orders(old(self).programs@[j])),
            ),
    {
        let ghost f = |j: int| tag(j, restart_orders(old(self).programs@[j]));
        let mut out: Vec<(usize, Order)> = Vec::new();
        let mut i: usize = 0;
        while i < self.programs.len()
            invariant
                0 <= i <= self.programs@.len(),
                self.programs@.len() == old(self).programs@.len(),
                old(self).wf(),
                f == (|j: int| tag(j, restart_orders(old(self).programs@[j]))),
                forall|j: int|
                    0 <= j < i ==> job_restarted(#[trigger] old(self).programs@[j], self.programs@[j], now),
                forall|j: int|
                    i <= j < self.programs@.len() ==> #[trigger] self.programs@[j] == old(self).programs@[j],
                out@ == gather(i as nat, f),
            decreases self.programs@.len() - i,
        {
            let os = self.programs[i].restart(now);
            proof {
                lemma_gather_step(i as nat, f);
            }
            push_tagged(&mut out, i, os);
            i = i + 1;
        }
        proof {
            assert forall|j: int| 0 <= j < self.programs@.len() implies {
                &&& (#[trigger] self.programs@[j]).name == old(self).programs@[j].name
                &&& self.programs@[j].wf()
                &&& self.programs@[j].named()
            } by {
                assert(job_restarted(old(self).programs@[j], self.programs@[j], now));
                lemma_same_replicas_wf(old(self).programs@[j], self.programs@[j]);
            }
            lemma_wf_kept(*old(self), *self);
        }
        out
    }

    /// One tick of every job at `now`; `exits` lists the children reaped
    /// since the last tick, by pid.
    pub fn check_status(&mut self, now: u64, exits: &Vec<(u32, ExitStatus)>) -> (r: Vec<(usize, Order)>)
        requires
            old(self).wf(),
        ensures
            final(self).wf(),
            final(self).programs@.len() == old(self).programs@.len(),
            forall|j: int|
                0 <= j < final(self).programs@.len() ==> job_ticked(
                    #[trigger] old(self).programs@[j],
                    final(self).programs@[j],
                    now,
                    exits@,
                ),
            r@ == gather(
                old(self).programs@.len(),
                |j: int| tag(j, tick_orders(old(self).programs@[j], now, exits@)),
            ),
    {
        let ghost f = |j: int| tag(j, tick_orders(old(self).programs@[j], now, exits@));
        let mut out: Vec<(usize, Order)> = Vec::new();
        let mut i: usize = 0;
        while i < self.programs.len()
            invariant
                0 <= i <= self.programs@.len(),
                self.programs@.len() == old(self).programs@.len(),
                old(self).wf(),
                f == (|j: int| tag(j, tick_orders(old(self).programs@[j], now, exits@))),
                forall|j: int|
                    0 <= j < i ==> job_ticked(#[trigger] old(self).programs@[j], self.programs@[j], now, exits@),
                forall|j: int|
                    i <= j < self.programs@.len() ==> #[trigger] self.programs@[j] == old(self).programs@[j],
                out@ == gather(i as nat, f),
            decreases self.programs@.len() - i,
        {
            let os = self.programs[i].check_status(now, exits);
            proof {
                lemma_gather_step(i as nat, f);
            }
            push_tagged(&mut out, i, os);
            i = i + 1;
        }
        proof {
            assert forall|j: int| 0 <= j < self.programs@.len() implies {
                &&& (#[trigger] self.programs@[j]).name == old(self).programs@[j].name
                &&& self.programs@[j].wf()
                &&& self.programs@[j].named()
            } by {
                assert(job_ticked(old(self).programs@[j], self.programs@[j], now, exits@));
                lemma_same_replicas_wf(old(self).programs@[j], self.programs@[j]);
            }
            lemma_wf_kept(*old(self), *self);
        }
        out
    }
    /// Starts every job that has no running replica.
    pub fn start_all(&mut self) -> (r: Vec<(usize, Order)>)
        requires
            old(self).wf(),
        ensures
            final(self).wf(),
            final(self).programs@.len() == old(self).programs@.len(),
            forall|j: int|
                0 <= j < final(self).programs@.len() ==> started_if(
                    #[trigger] old(self).programs@[j],
                    final(self).programs@[j],
                    starts(old(self).programs@[j]),
                ),
            r@ == gather(
                old(self).programs@.len(),
                |j: int| tag(j, start_orders_if(old(self).programs@[j], starts(old(self).programs@[j]))),
            ),
    {
        let ghost f = |j: int| tag(j, start_orders_if(old(self).programs@[j], starts(old(self).programs@[j])));
        let mut out: Vec<(usize, Order)> = Vec::new();
        let mut i: usize = 0;
        while i < self.programs.len()
            invariant
                0 <= i <= self.programs@.len(),
                self.programs@.len() == old(self).programs@.len(),
                old(self).wf(),
                f == (|j: int| tag(j, start_orders_if(old(self).programs@[j], starts(old(self).programs@[j])))),
                forall|j: int|
                    0 <= j < i ==> started_if(
                        #[trigger] old(self).programs@[j],
                        self.programs@[j],
                        starts(old(self).programs@[j]),
                    ),
                forall|j: int|
                    i <= j < self.programs@.len() ==> #[trigger] self.programs@[j] == old(self).programs@[j],
                out@ == gather(i as nat, f),
            decreases self.programs@.len() - i,
        {
            proof {
                lemma_gather_step(i as nat, f);
            }
            let go = !self.programs[i].is_running();
            if go {
                match self.programs[i].start() {
                    Ok(os) => push_tagged(&mut out, i, os),
                    Err(_) => {},
                }
            } else {
                assert(out@ =~= out@ + tag(i as int, Seq::empty()));
            }
            i = i + 1;
        }
        proof {
            assert forall|j: int| 0 <= j < self.programs@.len() implies {
                &&& (#[trigger] self.programs@[j]).name == old(self).programs@[j].name
                &&& self.programs@[j].wf()
                &&& self.programs@[j].named()
            } by {
                assert(started_if(old(self).programs@[j], self.programs@[j], starts(old(self).programs@[j])));
            }
            lemma_wf_kept(*old(self), *self);
        }
        out
    }

    /// Starts every job marked `autostart` that has no running replica.
    pub fn auto_start(&mut self) -> (r: Vec<(usize, Order)>)
        requires
            old(self).wf(),
        ensures
            final(self).wf(),
            final(self).programs@.len() == old(self).programs@.len(),
            forall|j: int|
                0 <= j < final(self).programs@.len() ==> started_if(
                    #[trigger] old(self).programs@[j],
                    final(self).programs@[j],
                    autostarts(old(self).programs@[j]),
                ),
            r@ == gather(
                old(self).programs@.len(),
                |j: int| tag(j, start_orders_if(old(self).programs@[j], autostarts(old(self).programs@[j]))),
            ),
    {
        let ghost f = |j: int| tag(j, start_orders_if(old(self).programs@[j], autostarts(old(self).programs@[j])));
        let mut out: Vec<(usize, Order)> = Vec::new();
        let mut i: usize = 0;
        while i < self.programs.len()
            invariant
                0 <= i <= self.programs@.len(),
                self.programs@.len() == old(self).programs@.len(),
                old(self).wf(),
                f == (|j: int| tag(j, start_orders_if(old(self).programs@[j], autostarts(old(self).programs@[j])))),
                forall|j: int|
                    0 <= j < i ==> started_if(
                        #[trigger] old(self).programs@[j],
                        self.programs@[j],
                        autostarts(old(self).programs@[j]),
                    ),
                forall|j: int|
                    i <= j < self.programs@.len() ==> #[trigger] self.programs@[j] == old(self).programs@[j],
                out@ == gather(i as nat, f),
            decreases self.programs@.len() - i,
        {
            proof {
                lemma_gather_step(i as nat, f);
            }
            let go = self.programs[i].config.autostart && !self.programs[i].is_running();
            if go {
                match self.programs[i].start() {
                    Ok(os) => push_tagged(&mut out, i, os),
                    Err(_) => {},
                }
            } else {
                assert(out@ =~= out@ + tag(i as int, Seq::empty()));
            }
            i = i + 1;
        }
        proof {
            assert forall|j: int| 0 <= j < self.programs@.len() implies {
                &&& (#[trigger] self.programs@[j]).name == old(self).programs@[j].name
                &&& self.programs@[j].wf()
                &&& self.programs@[j].named()
            } by {
                assert(started_if(old(self).programs@[j], self.programs@[j], autostarts(old(self).programs@[j])));
            }
            lemma_wf_kept(*old(self), *self);
        }
        out
    }
    /// Asks the job called `name` to stop, or every job when `name` is empty.
    pub fn stop(&mut self, name: &str, now: u64) -> (r: Result<Vec<(usize, Order)>, JobsError>)
        requires
            old(self).wf(),
        ensures
            final(self).wf(),
            stop_named(old(self).programs@, name@, now, final(self).programs@, r),
    {
        if name.is_empty() {
            return Ok(self.stop_all(now));
        }
        match self.find(name) {
            None => Err(JobsError::NotFound(name.to_owned())),
            Some(i) => {
                let os = self.programs[i].stop(now);
                let mut out: Vec<(usize, Order)> = Vec::new();
                push_tagged(&mut out, i, os);
                assert(out@ =~= tag(i as int, stop_orders(old(self).programs@[i as int])));
                proof {
                    assert forall|j: int| 0 <= j < self.programs@.len() implies {
                        &&& (#[trigger] self.programs@[j]).name == old(self).programs@[j].name
                        &&& self.programs@[j].wf()
                        &&& self.programs@[j].named()
                    } by {
                        if j == i {
                            lemma_same_replicas_wf(old(self).programs@[j], self.programs@[j]);
                        }
                    }
                    lemma_wf_kept(*old(self), *self);
                }
                Ok(out)
            },
        }
    }

    /// Restarts the job called `name`, or every job when `name` is empty.
    pub fn restart(&mut self, name: &str, now: u64) -> (r: Result<Vec<(usize, Order)>, JobsError>)
        requires
            old(self).wf(),
        ensures
            final(self).wf(),
            restart_named(old(self).programs@, name@, now, final(self).programs@, r),
    {
        if name.is_empty() {
            return Ok(self.restart_all(now));
        }
        match self.find(name) {
            None => Err(JobsError::NotFound(name.to_owned())),
            Some(i) => {
                let os = self.programs[i].restart(now);
                let mut out: Vec<(usize, Order)> = Vec::new();
                push_tagged(&mut out, i, os);
                assert(out@ =~= tag(i as int, restart_orders(old(self).programs@[i as int])));
                proof {
                    assert forall|j: int| 0 <= j < self.programs@.len() implies {
                        &&& (#[trigger] self.programs@[j]).name == old(self).programs@[j].name
                        &&& self.programs@[j].wf()
                        &&& self.programs@[j].named()
                    } by {
                        if j == i {
                            lemma_same_replicas_wf(old(self).programs@[j], self.programs@[j]);
                        }
                    }
                    lemma_wf_kept(*old(self), *self);
                }
                Ok(out)
            },
        }
    }
    /// Starts the job called `name`, or every job when `name` is empty. A
    /// job with a running replica is refused.
    pub fn start(&mut self, name: &str) -> (r: Result<Vec<(usize, Order)>, JobsError>)
        requires
            old(self).wf(),
        ensures
            final(self).wf(),
            start_named(old(self).programs@, name@, final(self).programs@, r),
    {
        if name.is_empty() {
            return Ok(self.start_all());
        }
        match self.find(name) {
            None => Err(JobsError::NotFound(name.to_owned())),
            Some(i) => {
                match self.programs[i].start() {
                    Err(_) => {
                        assert(self.programs@ =~= old(self).programs@);
                        Err(JobsError::AlreadyRunning(name.to_owned()))
                    },
                    Ok(os) => {
                        let mut out: Vec<(usize, Order)> = Vec::new();
                        push_tagged(&mut out, i, os);
                        assert(out@ =~= tag(
                            i as int,
                            start_orders(old(self).programs@[i as int].config.numprocs.0 as nat),
                        ));
                        proof {
                            assert forall|j: int| 0 <= j < self.programs@.len() implies {
                                &&& (#[trigger] self.programs@[j]).name == old(self).programs@[j].name
                                &&& self.programs@[j].wf()
                                &&& self.programs@[j].named()
                            } by {}
                            lemma_wf_kept(*old(self), *self);
                        }
                        Ok(out)
                    },
                }
            },
        }
    }

    /// Records the outcome of spawning replica `process` of job `job`.
    pub fn started(&mut self, job: usize, process: usize, now: u64, spawned: Option<u32>)
        requires
            old(self).wf(),
            job < old(self).programs@.len(),
            process < old(self).programs@[job as int].processes@.len(),
            !is_running(old(self).programs@[job as int].processes@[process as int].state),
        ensures
            final(self).wf(),
            only_changed(old(self).programs@, final(self).programs@, job as int),
            same_replicas(old(self).programs@[job as int], final(self).programs@[job as int]),
            final(self).programs@[job as int].processes@[process as int].state == start_state(
                old(self).programs@[job as int].processes@[process as int].state,
                old(self).programs@[job as int].config,
                now,
                spawned,
            ),
            forall|k: int|
                0 <= k < final(self).programs@[job as int].processes@.len() && k != process
                    ==> #[trigger] final(self).programs@[job as int].processes@[k]
                    == old(self).programs@[job as int].processes@[k],
    {
        self.programs[job].started(process, now, spawned);
        proof {
            assert forall|j: int| 0 <= j < self.programs@.len() implies {
                &&& (#[trigger] self.programs@[j]).name == old(self).programs@[j].name
                &&& self.programs@[j].wf()
                &&& self.programs@[j].named()
            } by {
                if j == job {
                    lemma_same_replicas_wf(old(self).programs@[j], self.programs@[j]);
                }
            }
            lemma_wf_kept(*old(self), *self);
        }
    }
    /// Replaces the set by the jobs of `new`, keeping each current job that
    /// `new` holds with the same options.
    #[verifier::spinoff_prover]
    fn merge(&mut self, new: Jobs)
        requires
            old(self).wf(),
            new.wf(),
        ensures
            final(self).wf(),
            merged(old(self).programs@, new.programs@, final(self).programs@),
    {
        let ghost pre = self.programs@;
        let ghost nw = new.programs@;
        let mut olds: Vec<Job> = Vec::new();
        std::mem::swap(&mut olds, &mut self.programs);
        let mut result: Vec<Job> = Vec::new();
        let ghost mut p: int = 0;
        while olds.len() > 0
            invariant
                0 <= p <= pre.len(),
                olds@ == pre.subrange(p, pre.len() as int),
                old(self).wf(),
                pre == old(self).programs@,
                nw == new.programs@,
                unique_names(result@),
                forall|r: int|
                    0 <= r < result@.len() ==> {
                        &&& (#[trigger] result@[r]).wf()
                        &&& result@[r].named()
                        &&& result@[r].name@.len() > 0
                        &&& kept(result@[r], nw)
                    },
                forall|r: int|
                    0 <= r < result@.len() ==> exists|i: int|
                        0 <= i < p && pre[i] == #[trigger] result@[r] && kept(pre[i], nw),
                forall|i: int| 0 <= i < p && kept(#[trigger] pre[i], nw) ==> contains_job(result@, pre[i]),
            decreases olds@.len(),
        {
            let job = olds.remove(0);
            assert(olds@ =~= pre.subrange(p + 1, pre.len() as int));
            assert(job == pre[p]);
            let ghost before = result@;
            if is_kept(&job, &new) {
                proof {
                    assert forall|r: int| 0 <= r < result@.len() implies #[trigger] result@[r].name@ != job.name@ by {
                        let i = choose|i: int| 0 <= i < p && pre[i] == result@[r] && kept(pre[i], nw);
                        assert(pre[i].name@ != pre[p].name@);
                    }
                }
                result.push(job);
            }
            proof {
                assert forall|r: int| 0 <= r < result@.len() implies exists|i: int|
                    0 <= i < p + 1 && pre[i] == #[trigger] result@[r] && kept(pre[i], nw) by {
                    if r < before.len() {
                        assert(result@[r] == before[r]);
                        let i = choose|i: int| 0 <= i < p && pre[i] == before[r] && kept(pre[i], nw);
                        assert(pre[i] == result@[r]);
                    } else {
                        assert(result@[r] == pre[p]);
                    }
                }
                assert forall|i: int| 0 <= i < p + 1 && kept(#[trigger] pre[i], nw) implies contains_job(
                    result@,
                    pre[i],
                ) by {
                    if i < p {
                        let r = choose|r: int| 0 <= r < before.len() && #[trigger] before[r] == pre[i];
                        assert(result@[r] == pre[i]);
                    } else {
                        assert(result@[result@.len() - 1] == pre[p]);
                    }
                }
            }
            proof {
                p = p + 1;
            }
        }
        let ghost kept_part = result@;
        let mut news: Vec<Job> = new.programs;
        let ghost mut q: int = 0;
        while news.len() > 0
            invariant
                0 <= q <= nw.len(),
                news@ == nw.subrange(q, nw.len() as int),
                unique_names(nw),
                forall|k: int|
                    0 <= k < nw.len() ==> {
                        &&& (#[trigger] nw[k]).wf()
                        &&& nw[k].named()
                        &&& nw[k].name@.len() > 0
                    },
                unique_names(result@),
                forall|r: int|
                    0 <= r < result@.len() ==> {
                        &&& (#[trigger] result@[r]).wf()
                        &&& result@[r].named()
                        &&& result@[r].name@.len() > 0
                        &&& kept(result@[r], nw)
                    },
                forall|r: int|
                    0 <= r < result@.len() ==> (exists|i: int|
                        0 <= i < pre.len() && pre[i] == #[trigger] result@[r] && kept(pre[i], nw))
                        || contains_job(nw, result@[r]),
                forall|i: int|
                    0 <= i < pre.len() && kept(#[trigger] pre[i], nw) ==> contains_job(result@, pre[i]),
                forall|k: int| 0 <= k < q ==> has_name(result@, (#[trigger] nw[k]).name@),
            decreases news@.len(),
        {
            let job = news.remove(0);
            assert(news@ =~= nw.subrange(q + 1, nw.len() as int));
            assert(job == nw[q]);
            if !name_taken(&result, &job.name) {
                let ghost before = result@;
                result.push(job);
                proof {
                    assert(result@[result@.len() - 1] == nw[q]);
                    assert(kept(nw[q], nw));
                    assert forall|i: int|
                        0 <= i < pre.len() && kept(#[trigger] pre[i], nw) implies contains_job(result@, pre[i]) by {
                        let r = choose|r: int| 0 <= r < before.len() && #[trigger] before[r] == pre[i];
                        assert(result@[r] == pre[i]);
                    }
                    assert forall|k: int| 0 <= k < q + 1 implies has_name(result@, (#[trigger] nw[k]).name@) by {
                        if k < q {
                            let r = choose|r: int| 0 <= r < before.len() && #[trigger] before[r].name@ == nw[k].name@;
                            assert(result@[r].name@ == nw[k].name@);
                        } else {
                            assert(result@[result@.len() - 1].name@ == nw[k].name@);
                        }
                    }
                    assert forall|r: int| 0 <= r < result@.len() implies (exists|i: int|
                        0 <= i < pre.len() && pre[i] == #[trigger] result@[r] && kept(pre[i], nw))
                        || contains_job(nw, result@[r]) by {
                        if r < result@.len() - 1 {
                            assert(result@[r] == before[r]);
                        } else {
                            assert(nw[q] == result@[r]);
                        }
                    }
                }
            }
            proof {
                q = q + 1;
            }
        }
        self.programs = result;
        proof {
            assert forall|n: Seq<char>| has_name(self.programs@, n) <==> has_name(nw, n) by {
                if has_name(self.programs@, n) {
                    let r = choose|r: int| 0 <= r < self.programs@.len() && #[trigger] self.programs@[r].name@ == n;
                    assert(kept(self.programs@[r], nw));
                }
                if has_name(nw, n) {
                    let k = choose|k: int| 0 <= k < nw.len() && #[trigger] nw[k].name@ == n;
                    assert(has_name(self.programs@, nw[k].name@));
                }
            }
        }
    }
    /// Asks every job that a reload to `new` removes or replaces to stop.
    pub fn stop_outdated(&mut self, new: &Jobs, now: u64) -> (r: Vec<(usize, Order)>)
        requires
            old(self).wf(),
        ensures
            final(self).wf(),
            final(self).programs@.len() == old(self).programs@.len(),
            forall|j: int|
                0 <= j < final(self).programs@.len() ==> if kept(
                    #[trigger] old(self).programs@[j],
                    new.programs@,
                ) {
                    final(self).programs@[j] == old(self).programs@[j]
                } else {
                    job_stopped(old(self).programs@[j], final(self).programs@[j], now)
                },
            r@ == gather(
                old(self).programs@.len(),
                |j: int|
                    if kept(old(self).programs@[j], new.programs@) {
                        Seq::empty()
                    } else {
                        tag(j, stop_orders(old(self).programs@[j]))
                    },
            ),
    {
        let ghost f = |j: int|
            if kept(old(self).programs@[j], new.programs@) {
                Seq::empty()
            } else {
                tag(j, stop_orders(old(self).programs@[j]))
            };
        let mut out: Vec<(usize, Order)> = Vec::new();
        let mut i: usize = 0;
        while i < self.programs.len()
            invariant
                0 <= i <= self.programs@.len(),
                self.programs@.len() == old(self).programs@.len(),
                old(self).wf(),
                f == (|j: int|
                    if kept(old(self).programs@[j], new.programs@) {
                        Seq::empty()
                    } else {
                        tag(j, stop_orders(old(self).programs@[j]))
                    }),
                forall|j: int|
                    0 <= j < i ==> if kept(#[trigger] old(self).programs@[j], new.programs@) {
                        self.programs@[j] == old(self).programs@[j]
                    } else {
                        job_stopped(old(self).programs@[j], self.programs@[j], now)
                    },
                forall|j: int|
                    i <= j < self.programs@.len() ==> #[trigger] self.programs@[j] == old(self).programs@[j],
                out@ == gather(i as nat, f),
            decreases self.programs@.len() - i,
        {
            proof {
                lemma_gather_step(i as nat, f);
            }
            if is_kept(&self.programs[i], new) {
                assert(out@ =~= out@ + Seq::<(usize, Order)>::empty());
            } else {
                let os = self.programs[i].stop(now);
                push_tagged(&mut out, i, os);
            }
            i = i + 1;
        }
        proof {
            assert forall|j: int| 0 <= j < self.programs@.len() implies {
                &&& (#[trigger] self.programs@[j]).name == old(self).programs@[j].name
                &&& self.programs@[j].wf()
                &&& self.programs@[j].named()
            } by {
                if !kept(old(self).programs@[j], new.programs@) {
                    lemma_same_replicas_wf(old(self).programs@[j], self.programs@[j]);
                }
            }
            lemma_wf_kept(*old(self), *self);
        }
        out
    }

    /// Whether a job that a reload to `new` removes or replaces still runs.
    pub fn outdated_running(&self, new: &Jobs) -> (r: bool)
        ensures
            r == outdated_running(self.programs@, new.programs@),
    {
        let mut i: usize = 0;
        while i < self.programs.len()
            invariant
                0 <= i <= self.programs@.len(),
                forall|j: int|
                    0 <= j < i ==> kept(#[trigger] self.programs@[j], new.programs@) || !any_running(
                        self.programs@[j].processes@,
                    ),
            decreases self.programs@.len() - i,
        {
            if !is_kept(&self.programs[i], new) && self.programs[i].is_running() {
                return true;
            }
            i = i + 1;
        }
        false
    }

    /// Reconciles the set with `new` once the jobs it removes or replaces
    /// have stopped: jobs of `new` that the set holds with the same options
    /// are kept as they are, the others are taken from `new`, and the
    /// autostart pass runs.
    pub fn load_new_jobs(&mut self, new: Jobs) -> (r: Vec<(usize, Order)>)
        requires
            old(self).wf(),
            new.wf(),
            !outdated_running(old(self).programs@, new.programs@),
        ensures
            final(self).wf(),
            forall|n: Seq<char>| has_name(final(self).programs@, n) <==> has_name(new.programs@, n),
            forall|r: int|
                0 <= r < final(self).programs@.len() ==> kept(
                    #[trigger] final(self).programs@[r],
                    new.programs@,
                ),
            forall|i: int|
                0 <= i < old(self).programs@.len() && kept(#[trigger] old(self).programs@[i], new.programs@)
                    && any_running(old(self).programs@[i].processes@) ==> contains_job(
                    final(self).programs@,
                    old(self).programs@[i],
                ),
            exists|mid: Seq<Job>|
                reloaded_with(old(self).programs@, new.programs@, mid, final(self).programs@)
                    && r@ == gather(
                    mid.len(),
                    |j: int| tag(j, start_orders_if(mid[j], autostarts(mid[j]))),
                ),
    {
        let ghost nw = new.programs@;
        self.merge(new);
        let ghost mid = self.programs@;
        let r = self.auto_start();
        proof {
            assert forall|i: int|
                0 <= i < old(self).programs@.len() && kept(#[trigger] old(self).programs@[i], nw)
                    && any_running(old(self).programs@[i].processes@) implies contains_job(
                self.programs@,
                old(self).programs@[i],
            ) by {
                let k = choose|k: int| 0 <= k < mid.len() && #[trigger] mid[k] == old(self).programs@[i];
                assert(started_if(mid[k], self.programs@[k], autostarts(mid[k])));
                assert(self.programs@[k] == mid[k]);
            }
            assert forall|r: int| 0 <= r < self.programs@.len() implies kept(
                #[trigger] self.programs@[r],
                nw,
            ) by {
                assert(started_if(mid[r], self.programs@[r], autostarts(mid[r])));
                assert(kept(mid[r], nw));
                let k = choose|k: int|
                    0 <= k < nw.len() && #[trigger] nw[k].name@ == mid[r].name@ && same_config(nw[k].config, mid[r].config);
                assert(nw[k].name@ == self.programs@[r].name@);
            }
            assert forall|n: Seq<char>| has_name(self.programs@, n) <==> has_name(nw, n) by {
                if has_name(self.programs@, n) {
                    let r = choose|r: int| 0 <= r < self.programs@.len() && #[trigger] self.programs@[r].name@ == n;
                    assert(started_if(mid[r], self.programs@[r], autostarts(mid[r])));
                    assert(has_name(mid, n));
                }
                if has_name(nw, n) {
                    assert(has_name(mid, n));
                    let r = choose|r: int| 0 <= r < mid.len() && #[trigger] mid[r].name@ == n;
                    assert(started_if(mid[r], self.programs@[r], autostarts(mid[r])));
                    assert(self.programs@[r].name@ == n);
                }
            }
            assert(reloaded_with(old(self).programs@, nw, mid, self.programs@));
        }
        r
    }
    /// Gives every job `numprocs` replicas that were never started.
    pub fn init(&mut self)
        requires
            old(self).wf(),
            !set_running(old(self).programs@),
        ensures
            final(self).wf(),
            final(self).programs@.len() == old(self).programs@.len(),
            forall|j: int|
                0 <= j < final(self).programs@.len() ==> job_fresh(
                    #[trigger] old(self).programs@[j],
                    final(self).programs@[j],
                ),
    {
        let mut i: usize = 0;
        while i < self.programs.len()
            invariant
                0 <= i <= self.programs@.len(),
                self.programs@.len() == old(self).programs@.len(),
                old(self).wf(),
                !set_running(old(self).programs@),
                forall|j: int|
                    0 <= j < i ==> job_fresh(#[trigger] old(self).programs@[j], self.programs@[j]),
                forall|j: int|
                    i <= j < self.programs@.len() ==> #[trigger] self.programs@[j] == old(self).programs@[j],
            decreases self.programs@.len() - i,
        {
            assert(!any_running(old(self).programs@[i as int].processes@));
            self.programs[i].init();
            i = i + 1;
        }
        proof {
            assert forall|j: int| 0 <= j < self.programs@.len() implies {
                &&& (#[trigger] self.programs@[j]).name == old(self).programs@[j].name
                &&& self.programs@[j].wf()
                &&& self.programs@[j].named()
            } by {
                assert(job_fresh(old(self).programs@[j], self.programs@[j]));
            }
            lemma_wf_kept(*old(self), *self);
        }
    }

    /// Removes the job called `name`, unless one of its replicas runs.
    pub fn remove_job(&mut self, name: &str) -> (r: Result<(), JobsError>)
        requires
            old(self).wf(),
        ensures
            final(self).wf(),
            !has_name(old(self).programs@, name@) ==> (r matches Err(JobsError::NotFound(n))
                && n@ == name@ && final(self).programs@ == old(self).programs@),
            has_name(old(self).programs@, name@) ==> exists|i: int|
                0 <= i < old(self).programs@.len() && #[trigger] old(self).programs@[i].name@ == name@
                    && if any_running(old(self).programs@[i].processes@) {
                    &&& r matches Err(JobsError::AlreadyRunning(n)) && n@ == name@
                    &&& final(self).programs@ == old(self).programs@
                } else {
                    &&& r is Ok
                    &&& final(self).programs@ == old(self).programs@.remove(i)
                },
    {
        match self.find(name) {
            None => Err(JobsError::NotFound(name.to_owned())),
            Some(i) => {
                if self.programs[i].is_running() {
                    return Err(JobsError::AlreadyRunning(name.to_owned()));
                }
                let ghost pre = self.programs@;
                self.programs.remove(i);
                proof {
                    assert forall|a: int, b: int|
                        0 <= a < self.programs@.len() && 0 <= b < self.programs@.len() && a != b implies #[trigger] self.programs@[a].name@
                            != #[trigger] self.programs@[b].name@ by {
                        let x = if a < i { a } else { a + 1 };
                        let y = if b < i { b } else { b + 1 };
                        assert(self.programs@[a] == pre[x]);
                        assert(self.programs@[b] == pre[y]);
                        assert(pre[x].name@ != pre[y].name@);
                    }
                    assert forall|j: int| 0 <= j < self.programs@.len() implies {
                        &&& (#[trigger] self.programs@[j]).wf()
                        &&& self.programs@[j].named()
                        &&& self.programs@[j].name@.len() > 0
                    } by {
                        let x = if j < i { j } else { j + 1 };
                        assert(self.programs@[j] == pre[x]);
                    }
                }
                Ok(())
            },
        }
    }

    /// Removes every job; none may still run.
    pub fn clear_jobs(&mut self)
        requires
            !set_running(old(self).programs@),
        ensures
            final(self).programs@.len() == 0,
            final(self).wf(),
    {
        self.programs.clear();
    }
}

} // verus!
