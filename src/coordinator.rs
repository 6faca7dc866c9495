//! The coordinator's lifecycle as a state machine: dispatch every job,
//! collect one result per job, send one stop signal per worker, then join
//! every worker. The caller performs each action and reports it done.

use vstd::prelude::*;

verus! {

/// What the coordinator does next.
pub enum Action {
    /// Send the job numbered by the payload onto the queue.
    SendJob(usize),
    /// Receive one result.
    Receive,
    /// Send one stop signal onto the queue.
    SendStop,
    /// Wait for the worker numbered by the payload to finish.
    Join(usize),
    /// Nothing is left to do.
    Finished,
}

/// How far the coordinator has come.
pub struct Coordinator {
    pub workers: usize,
    pub jobs: usize,
    pub sent: usize,
    pub received: usize,
    pub stops: usize,
    pub joined: usize,
}

impl Coordinator {
    /// The counters stay in range, and each phase starts only when the one
    /// before it is complete.
    pub open spec fn wf(&self) -> bool {
        &&& self.workers >= 1
        &&& self.sent <= self.jobs
        &&& self.received <= self.jobs
        &&& self.stops <= self.workers
        &&& self.joined <= self.workers
        &&& self.received > 0 ==> self.sent == self.jobs
        &&& self.stops > 0 ==> self.received == self.jobs
        &&& self.joined > 0 ==> self.stops == self.workers
    }

    /// The action the coordinator owes next.
    pub open spec fn action(&self) -> Action {
        if self.sent < self.jobs {
            Action::SendJob(self.sent)
        } else if self.received < self.jobs {
            Action::Receive
        } else if self.stops < self.workers {
            Action::SendStop
        } else if self.joined < self.workers {
            Action::Join(self.joined)
        } else {
            Action::Finished
        }
    }

    /// The number of actions still owed.
    pub open spec fn steps_left(&self) -> int {
        2 * self.jobs + 2 * self.workers - self.sent - self.received - self.stops - self.joined
    }

    /// A coordinator for `workers` workers and `jobs` jobs, before any action.
    pub fn new(workers: usize, jobs: usize) -> (r: Coordinator)
        requires
            workers >= 1,
        ensures
            r.wf(),
            r.workers == workers,
            r.jobs == jobs,
            r.steps_left() == 2 * jobs + 2 * workers,
    {
        Coordinator { workers, jobs, sent: 0, received: 0, stops: 0, joined: 0 }
    }

    /// The action the coordinator owes next.
    pub fn next_action(&self) -> (r: Action)
        requires
            self.wf(),
        ensures
            r == self.action(),
    {
        if self.sent < self.jobs {
            Action::SendJob(self.sent)
        } else if self.received < self.jobs {
            Action::Receive
        } else if self.stops < self.workers {
            Action::SendStop
        } else if self.joined < self.workers {
            Action::Join(self.joined)
        } else {
            Action::Finished
        }
    }

    /// Records that the owed action was performed.
    pub fn done(&mut self)
        requires
            old(self).wf(),
            old(self).action() != Action::Finished,
        ensures
            final(self).wf(),
            final(self).workers == old(self).workers,
            final(self).jobs == old(self).jobs,
            final(self).steps_left() == old(self).steps_left() - 1,
            old(self).action() is SendJob ==> final(self).sent == old(self).sent + 1,
            old(self).action() is Receive ==> final(self).received == old(self).received + 1,
            old(self).action() is SendStop ==> final(self).stops == old(self).stops + 1,
            old(self).action() is Join ==> final(self).joined == old(self).joined + 1,
    {
        if self.sent < self.jobs {
            self.sent = self.sent + 1;
        } else if self.received < self.jobs {
            self.received = self.received + 1;
        } else if self.stops < self.workers {
            self.stops = self.stops + 1;
        } else {
            self.joined = self.joined + 1;
        }
    }
}

/// A coordinator sends a stop signal only once every job is on the queue
/// and every result has been received.
pub proof fn law_stop_after_drain(c: Coordinator)
    requires
        c.wf(),
        c.action() is SendStop,
    ensures
        c.sent == c.jobs,
        c.received == c.jobs,
{
}

/// The coordinator has finished exactly when no action is owed: then it has
/// sent every job, received one result per job, sent one stop signal per
/// worker and joined every worker.
pub proof fn law_finished(c: Coordinator)
    requires
        c.wf(),
    ensures
        (c.action() == Action::Finished) <==> c.steps_left() == 0,
        c.steps_left() >= 0,
        c.action() == Action::Finished ==> c.sent == c.jobs && c.received == c.jobs && c.stops
            == c.workers && c.joined == c.workers,
{
}

} // verus!
