//! Jobs, queue entries and the worker's state machine.

use vstd::prelude::*;
use crate::text::{completion_line, completion_text};

verus! {

/// One unit of work: an opaque payload.
pub struct Job {
    pub data: String,
}

/// An entry of the job queue: a job, or the signal that tells the worker
/// that takes it to stop.
pub enum Message {
    Work(Job),
    Stop,
}

/// A queue entry as the protocol sees it.
pub enum Entry {
    Work(Seq<char>),
    Stop,
}

impl View for Message {
    type V = Entry;

    open spec fn view(&self) -> Entry {
        match self {
            Message::Work(j) => Entry::Work(j.data@),
            Message::Stop => Entry::Stop,
        }
    }
}

/// Where a worker stands: waiting on the queue, working on a job, or done.
pub enum WorkerState {
    Idle,
    Busy(Job),
    Terminated,
}

/// A worker's state as the protocol sees it.
pub enum Phase {
    Idle,
    Busy(Seq<char>),
    Terminated,
}

impl View for WorkerState {
    type V = Phase;

    open spec fn view(&self) -> Phase {
        match self {
            WorkerState::Idle => Phase::Idle,
            WorkerState::Busy(j) => Phase::Busy(j.data@),
            WorkerState::Terminated => Phase::Terminated,
        }
    }
}

/// What an idle worker turns into when it takes `e` from the queue.
pub open spec fn phase_after(e: Entry) -> Phase {
    match e {
        Entry::Work(d) => Phase::Busy(d),
        Entry::Stop => Phase::Terminated,
    }
}

/// A finished job, as a worker publishes it.
pub struct Completion {
    pub worker: usize,
    pub data: String,
}

impl View for Completion {
    type V = (nat, Seq<char>);

    open spec fn view(&self) -> (nat, Seq<char>) {
        (self.worker as nat, self.data@)
    }
}

impl Completion {
    /// The published record: `Worker <id> completed job with data '<data>'`.
    pub fn text(&self) -> (r: String)
        ensures
            r@ == completion_line(self.worker as nat, self.data@),
    {
        completion_text(self.worker, self.data.as_str())
    }
}

impl Job {
    pub fn new(data: String) -> (r: Job)
        ensures
            r.data@ == data@,
    {
        Job { data }
    }
}

/// A worker: a stable identifier and its state.
pub struct Worker {
    pub id: usize,
    pub state: WorkerState,
}

impl Worker {
    /// A new worker with identifier `id`, waiting on the queue.
    pub fn new(id: usize) -> (r: Worker)
        ensures
            r.id == id,
            r.state@ == Phase::Idle,
    {
        Worker { id, state: WorkerState::Idle }
    }

    /// Whether the worker has not yet taken a stop signal.
    pub fn is_running(&self) -> (r: bool)
        ensures
            r == (self.state@ != Phase::Terminated),
    {
        match self.state {
            WorkerState::Terminated => false,
            _ => true,
        }
    }

    /// Whether the worker waits on the queue.
    pub fn is_idle(&self) -> (r: bool)
        ensures
            r == (self.state@ == Phase::Idle),
    {
        match self.state {
            WorkerState::Idle => true,
            _ => false,
        }
    }

    /// Whether the worker is working on a job.
    pub fn is_busy(&self) -> (r: bool)
        ensures
            r == (self.state@ is Busy),
    {
        match self.state {
            WorkerState::Busy(_) => true,
            _ => false,
        }
    }

    /// The worker takes `msg` from the queue: a job makes it busy with that
    /// job, a stop signal terminates it.
    pub fn receive(&mut self, msg: Message)
        requires
            old(self).state@ == Phase::Idle,
        ensures
            final(self).id == old(self).id,
            final(self).state@ == phase_after(msg@),
    {
        match msg {
            Message::Work(j) => {
                self.state = WorkerState::Busy(j);
            },
            Message::Stop => {
                self.state = WorkerState::Terminated;
            },
        }
    }

    /// The worker is done with its job: it hands back the completion and
    /// waits on the queue again.
    pub fn finish(&mut self) -> (r: Completion)
        requires
            old(self).state@ is Busy,
        ensures
            final(self).id == old(self).id,
            final(self).state@ == Phase::Idle,
            r@ == (old(self).id as nat, old(self).state@->Busy_0),
    {
        let mut st = WorkerState::Idle;
        std::mem::swap(&mut self.state, &mut st);
        match st {
            WorkerState::Busy(j) => Completion { worker: self.id, data: j.data },
            _ => {
                proof {
                    assert(false);
                }
                Completion { worker: self.id, data: String::new() }
            },
        }
    }
}

} // verus!
