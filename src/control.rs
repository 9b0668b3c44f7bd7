//! What the daemon does with one request of the control protocol.
use vstd::prelude::*;

use crate::job::{
    gather, job_restarted, job_status, job_stopped, lemma_gather_step, restart_orders,
    stop_orders, Job, Order,
};
use crate::jobs::{
    has_name, restart_named, set_status, start_named, start_orders_if, started_if, starts,
    stop_named, tag, Jobs, JobsError,
};
use crate::listener::{action_names, Action};
use crate::text::strings_view;

verus! {

/// What the control loop does after answering a request.
#[derive(Clone, Copy, Debug, PartialEq, Eq, Structural)]
pub enum Control {
    Continue,
    /// Read the configuration file again and reconcile the set with it.
    Reload,
    /// Stop every job and leave the loop.
    Shutdown,
}

/// The answer to a request, the orders to carry out, and what comes next.
pub struct Reply {
    pub text: String,
    pub orders: Vec<(usize, Order)>,
    pub control: Control,
}

/// The line that reports a failed command.
pub open spec fn error_line(e: JobsError) -> Seq<char> {
    match e {
        JobsError::NotFound(n) => "Job "@ + n@ + " not found\n"@,
        JobsError::AlreadyRunning(n) => "Job "@ + n@ + " is already running\n"@,
        JobsError::EmptyName => "Empty job name\n"@,
        JobsError::DuplicateName(n) => "Duplicate job "@ + n@ + "\n"@,
    }
}

/// The reply to a status request for `name`.
pub open spec fn name_status(js: Seq<Job>, name: Seq<char>, now: u64) -> Seq<char> {
    if name.len() == 0 {
        set_status(js, now)
    } else if has_name(js, name) {
        let i = choose|i: int| 0 <= i < js.len() && #[trigger] js[i].name@ == name;
        job_status(js[i].processes@, now)
    } else {
        "Job "@ + name + " not found\n"@
    }
}

/// The orders that a command result carries.
pub open spec fn ok_orders(r: Result<Vec<(usize, Order)>, JobsError>) -> Seq<(usize, Order)> {
    match r {
        Ok(v) => v@,
        Err(_) => Seq::empty(),
    }
}

/// The reply line for one name: the acknowledgement `ack` followed by the
/// name when the command succeeded, the error line when it failed.
pub open spec fn reply_line(
    ack: Seq<char>,
    name: Seq<char>,
    r: Result<Vec<(usize, Order)>, JobsError>,
) -> Seq<char> {
    match r {
        Ok(_) => ack + name + "\n"@,
        Err(e) => error_line(e),
    }
}

/// `post`, `orders` and the reply `text` come from starting each of `names` in turn, starting
/// from `pre`.
pub open spec fn start_each(
    pre: Seq<Job>,
    names: Seq<Seq<char>>,
    post: Seq<Job>,
    orders: Seq<(usize, Order)>,
    text: Seq<char>,
) -> bool
    decreases names.len(),
{
    if names.len() == 0 {
        post == pre && orders.len() == 0 && text.len() == 0
    } else {
        exists|mid: Seq<Job>, r: Result<Vec<(usize, Order)>, JobsError>|
            #[trigger] start_named(mid, names.last(), post, r) && {
                let n = orders.len() - ok_orders(r).len();
                let line = reply_line("started "@, names.last(), r);
                let m = text.len() - line.len();
                &&& n >= 0
                &&& m >= 0
                &&& start_each(pre, names.drop_last(), mid, orders.take(n), text.take(m))
                &&& orders.skip(n) == ok_orders(r)
                &&& text.skip(m) == line
            }
    }
}

/// `post`, `orders` and the reply `text` come from stopping each of `names` in turn, starting
/// from `pre`.
pub open spec fn stop_each(
    pre: Seq<Job>,
    names: Seq<Seq<char>>,
    now: u64,
    post: Seq<Job>,
    orders: Seq<(usize, Order)>,
    text: Seq<char>,
) -> bool
    decreases names.len(),
{
    if names.len() == 0 {
        post == pre && orders.len() == 0 && text.len() == 0
    } else {
        exists|mid: Seq<Job>, r: Result<Vec<(usize, Order)>, JobsError>|
            #[trigger] stop_named(mid, names.last(), now, post, r) && {
                let n = orders.len() - ok_orders(r).len();
                let line = reply_line("stopping "@, names.last(), r);
                let m = text.len() - line.len();
                &&& n >= 0
                &&& m >= 0
                &&& stop_each(pre, names.drop_last(), now, mid, orders.take(n), text.take(m))
                &&& orders.skip(n) == ok_orders(r)
                &&& text.skip(m) == line
            }
    }
}

/// `post`, `orders` and the reply `text` come from restarting each of `names` in turn, starting
/// from `pre`.
pub open spec fn restart_each(
    pre: Seq<Job>,
    names: Seq<Seq<char>>,
    now: u64,
    post: Seq<Job>,
    orders: Seq<(usize, Order)>,
    text: Seq<char>,
) -> bool
    decreases names.len(),
{
    if names.len() == 0 {
        post == pre && orders.len() == 0 && text.len() == 0
    } else {
        exists|mid: Seq<Job>, r: Result<Vec<(usize, Order)>, JobsError>|
            #[trigger] restart_named(mid, names.last(), now, post, r) && {
                let n = orders.len() - ok_orders(r).len();
                let line = reply_line("restarting "@, names.last(), r);
                let m = text.len() - line.len();
                &&& n >= 0
                &&& m >= 0
                &&& restart_each(pre, names.drop_last(), now, mid, orders.take(n), text.take(m))
                &&& orders.skip(n) == ok_orders(r)
                &&& text.skip(m) == line
            }
    }
}

/// Appends the line that reports `e`.
pub fn push_error(out: &mut String, e: &JobsError)
    ensures
        final(out)@ == old(out)@ + error_line(*e),
{
    match e {
        JobsError::NotFound(n) => {
            out.append("Job ");
            out.append(n.as_str());
            out.append(" not found\n");
        },
        JobsError::AlreadyRunning(n) => {
            out.append("Job ");
            out.append(n.as_str());
            out.append(" is already running\n");
        },
        JobsError::EmptyName => out.append("Empty job name\n"),
        JobsError::DuplicateName(n) => {
            out.append("Duplicate job ");
            out.append(n.as_str());
            out.append("\n");
        },
    }
}

fn append_orders(out: &mut Vec<(usize, Order)>, more: Vec<(usize, Order)>)
    ensures
        final(out)@ == old(out)@ + more@,
{
    let mut i: usize = 0;
    while i < more.len()
        invariant
            0 <= i <= more@.len(),
            out@ == old(out)@ + more@.take(i as int),
        decreases more@.len() - i,
    {
        out.push(more[i]);
        i = i + 1;
        assert(out@ =~= old(out)@ + more@.take(i as int));
    }
    assert(more@.take(more@.len() as int) =~= more@);
}

impl Jobs {
    /// Carries out one request at `now`. Start, stop, restart and status
    /// take each name in turn, or every job when no name is given; a name
    /// that fails is reported on a line of its own. Reload and shutdown are
    /// left to the caller through `control`.
    pub fn dispatch(&mut self, action: Action, now: u64) -> (r: Reply)
        requires
            old(self).wf(),
        ensures
            final(self).wf(),
            r.control == match action {
                Action::Reload => Control::Reload,
                Action::Shutdown => Control::Shutdown,
                _ => Control::Continue,
            },
            (action is Status || action is Reload || action is Shutdown) ==> final(self).programs@
                == old(self).programs@ && r.orders@.len() == 0,
            action is Reload ==> r.text@ == "reloading\n"@,
            action is Shutdown ==> r.text@ == "shutting down\n"@,
            action matches Action::Status(n) && n@.len() == 0 ==> r.text@ == set_status(
                old(self).programs@,
                now,
            ),
            action is Status && action_names(action).len() > 0 ==> r.text@ == gather(
                action_names(action).len(),
                |k: int| name_status(old(self).programs@, action_names(action)[k], now),
            ),
            action is Start && action_names(action).len() > 0 ==> start_each(
                old(self).programs@,
                action_names(action),
                final(self).programs@,
                r.orders@,
                r.text@,
            ),
            action is Stop && action_names(action).len() > 0 ==> stop_each(
                old(self).programs@,
                action_names(action),
                now,
                final(self).programs@,
                r.orders@,
                r.text@,
            ),
            action is Restart && action_names(action).len() > 0 ==> restart_each(
                old(self).programs@,
                action_names(action),
                now,
                final(self).programs@,
                r.orders@,
                r.text@,
            ),
            action matches Action::Start(n) && n@.len() == 0 ==> {
                &&& r.text@ == "ok\n"@
                &&& final(self).programs@.len() == old(self).programs@.len()
                &&& forall|j: int|
                    0 <= j < final(self).programs@.len() ==> started_if(
                        #[trigger] old(self).programs@[j],
                        final(self).programs@[j],
                        starts(old(self).programs@[j]),
                    )
                &&& r.orders@ == gather(
                    old(self).programs@.len(),
                    |j: int|
                        tag(j, start_orders_if(old(self).programs@[j], starts(old(self).programs@[j]))),
                )
            },
            action matches Action::Stop(n) && n@.len() == 0 ==> {
                &&& r.text@ == "ok\n"@
                &&& final(self).programs@.len() == old(self).programs@.len()
                &&& forall|j: int|
                    0 <= j < final(self).programs@.len() ==> job_stopped(
                        #[trigger] old(self).programs@[j],
                        final(self).programs@[j],
                        now,
                    )
                &&& r.orders@ == gather(
                    old(self).programs@.len(),
                    |j: int| tag(j, stop_orders(old(self).programs@[j])),
                )
            },
            action matches Action::Restart(n) && n@.len() == 0 ==> {
                &&& r.text@ == "ok\n"@
                &&& final(self).programs@.len() == old(self).programs@.len()
                &&& forall|j: int|
                    0 <= j < final(self).programs@.len() ==> job_restarted(
                        #[trigger] old(self).programs@[j],
                        final(self).programs@[j],
                        now,
                    )
                &&& r.orders@ == gather(
                    old(self).programs@.len(),
                    |j: int| tag(j, restart_orders(old(self).programs@[j])),
                )
            },
    {
        let mut text = String::new();
        let mut orders: Vec<(usize, Order)> = Vec::new();
        match action {
            Action::Reload => {
                text.append("reloading\n");
                return Reply { text, orders, control: Control::Reload };
            },
            Action::Shutdown => {
                text.append("shutting down\n");
                return Reply { text, orders, control: Control::Shutdown };
            },
            Action::Status(names) => {
                if names.len() == 0 {
                    return Reply { text: self.status_all(now), orders, control: Control::Continue };
                }
                let ghost js = self.programs@;
                let ghost f = |k: int| name_status(js, strings_view(names@)[k], now);
                let mut i: usize = 0;
                while i < names.len()
                    invariant
                        0 <= i <= names@.len(),
                        self.wf(),
                        self.programs@ == old(self).programs@,
                        js == old(self).programs@,
                        orders@.len() == 0,
                        f == (|k: int| name_status(js, strings_view(names@)[k], now)),
                        text@ == gather(i as nat, f),
                    decreases names@.len() - i,
                {
                    proof {
                        lemma_gather_step(i as nat, f);
                    }
                    let ghost name = names@[i as int]@;
                    assert(strings_view(names@)[i as int] == name);
                    match self.status(names[i].as_str(), now) {
                        Ok(s) => {
                            proof {
                                if name.len() > 0 {
                                    let k = choose|k: int|
                                        0 <= k < js.len() && #[trigger] js[k].name@ == name
                                            && s@ == job_status(js[k].processes@, now);
                                    let c = choose|c: int| 0 <= c < js.len() && #[trigger] js[c].name@ == name;
                                    assert(c == k);
                                }
                            }
                            text.append(s.as_str());
                        },
                        Err(e) => push_error(&mut text, &e),
                    }
                    i = i + 1;
                }
            },
            Action::Start(names) => {
                if names.len() == 0 {
                    orders = self.start_all();
                    text.append("ok\n");
                } else {
                    let mut i: usize = 0;
                    assert(strings_view(names@).take(0) =~= Seq::<Seq<char>>::empty());
                    while i < names.len()
                        invariant
                            0 <= i <= names@.len(),
                            self.wf(),
                            start_each(
                                old(self).programs@,
                                strings_view(names@).take(i as int),
                                
                                self.programs@,
                                orders@,
                                text@,
                            ),
                        decreases names@.len() - i,
                    {
                        let ghost prev = self.programs@;
                        let ghost prev_orders = orders@;
                        let ghost prev_text = text@;
                        let res = self.start(names[i].as_str());
                        let ghost rg = res;
                        match res {
                            Ok(os) => {
                                append_orders(&mut orders, os);
                                text.append("started ");
                                text.append(names[i].as_str());
                                text.append("\n");
                            },
                            Err(e) => push_error(&mut text, &e),
                        }
                        proof {
                            let ns = strings_view(names@).take(i + 1);
                            assert(ns.drop_last() =~= strings_view(names@).take(i as int));
                            assert(ns.last() == names@[i as int]@);
                            assert(orders@.take(prev_orders.len() as int) =~= prev_orders);
                            assert(orders@.skip(prev_orders.len() as int) =~= ok_orders(rg));
                            assert(start_named(prev, ns.last(), self.programs@, rg));
                            assert(text@ =~= prev_text + reply_line("started "@, ns.last(), rg));
                            assert(text@.take(prev_text.len() as int) =~= prev_text);
                            assert(text@.skip(prev_text.len() as int) =~= reply_line(
                                "started "@,
                                ns.last(),
                                rg,
                            ));
                        }
                        i = i + 1;
                    }
                    assert(strings_view(names@).take(names@.len() as int) =~= strings_view(names@));
                }
            },
            Action::Stop(names) => {
                if names.len() == 0 {
                    orders = self.stop_all(now);
                    text.append("ok\n");
                } else {
                    let mut i: usize = 0;
                    assert(strings_view(names@).take(0) =~= Seq::<Seq<char>>::empty());
                    while i < names.len()
                        invariant
                            0 <= i <= names@.len(),
                            self.wf(),
                            stop_each(
                                old(self).programs@,
                                strings_view(names@).take(i as int),
                                now,
                                self.programs@,
                                orders@,
                                text@,
                            ),
                        decreases names@.len() - i,
                    {
                        let ghost prev = self.programs@;
                        let ghost prev_orders = orders@;
                        let ghost prev_text = text@;
                        let res = self.stop(names[i].as_str(), now);
                        let ghost rg = res;
                        match res {
                            Ok(os) => {
                                append_orders(&mut orders, os);
                                text.append("stopping ");
                                text.append(names[i].as_str());
                                text.append("\n");
                            },
                            Err(e) => push_error(&mut text, &e),
                        }
                        proof {
                            let ns = strings_view(names@).take(i + 1);
                            assert(ns.drop_last() =~= strings_view(names@).take(i as int));
                            assert(ns.last() == names@[i as int]@);
                            assert(orders@.take(prev_orders.len() as int) =~= prev_orders);
                            assert(orders@.skip(prev_orders.len() as int) =~= ok_orders(rg));
                            assert(stop_named(prev, ns.last(), now, self.programs@, rg));
                            assert(text@ =~= prev_text + reply_line("stopping "@, ns.last(), rg));
                            assert(text@.take(prev_text.len() as int) =~= prev_text);
                            assert(text@.skip(prev_text.len() as int) =~= reply_line(
                                "stopping "@,
                                ns.last(),
                                rg,
                            ));
                        }
                        i = i + 1;
                    }
                    assert(strings_view(names@).take(names@.len() as int) =~= strings_view(names@));
                }
            },
            Action::Restart(names) => {
                if names.len() == 0 {
                    orders = self.restart_all(now);
                    text.append("ok\n");
                } else {
                    let mut i: usize = 0;
                    assert(strings_view(names@).take(0) =~= Seq::<Seq<char>>::empty());
                    while i < names.len()
                        invariant
                            0 <= i <= names@.len(),
                            self.wf(),
                            restart_each(
                                old(self).programs@,
                                strings_view(names@).take(i as int),
                                now,
                                self.programs@,
                                orders@,
                                text@,
                            ),
                        decreases names@.len() - i,
                    {
                        let ghost prev = self.programs@;
                        let ghost prev_orders = orders@;
                        let ghost prev_text = text@;
                        let res = self.restart(names[i].as_str(), now);
                        let ghost rg = res;
                        match res {
                            Ok(os) => {
                                append_orders(&mut orders, os);
                                text.append("restarting ");
                                text.append(names[i].as_str());
                                text.append("\n");
                            },
                            Err(e) => push_error(&mut text, &e),
                        }
                        proof {
                            let ns = strings_view(names@).take(i + 1);
                            assert(ns.drop_last() =~= strings_view(names@).take(i as int));
                            assert(ns.last() == names@[i as int]@);
                            assert(orders@.take(prev_orders.len() as int) =~= prev_orders);
                            assert(orders@.skip(prev_orders.len() as int) =~= ok_orders(rg));
                            assert(restart_named(prev, ns.last(), now, self.programs@, rg));
                            assert(text@ =~= prev_text + reply_line("restarting "@, ns.last(), rg));
                            assert(text@.take(prev_text.len() as int) =~= prev_text);
                            assert(text@.skip(prev_text.len() as int) =~= reply_line(
                                "restarting "@,
                                ns.last(),
                                rg,
                            ));
                        }
                        i = i + 1;
                    }
                    assert(strings_view(names@).take(names@.len() as int) =~= strings_view(names@));
                }
            },
        }
        Reply { text, orders, control: Control::Continue }
    }
}

} // verus!
