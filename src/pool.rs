//! The pool run in one thread of control: the job queue, the workers and the
//! result channel, moved by the protocol's rules under any schedule.

use vstd::prelude::*;
use crate::protocol::{
    PoolState, lemma_initial, lemma_dispatch, lemma_take, lemma_finish, lemma_shut_down,
    lemma_can_move, lemma_move, law_results_match_jobs, law_all_terminated, law_single_worker_order,
};
use crate::worker::{Completion, Job, Message, Phase, Worker};

verus! {

/// The index `j` places after `start`, counting round `n` workers.
pub open spec fn round(start: int, j: int, n: int) -> int {
    if start + j < n {
        start + j
    } else {
        start + j - n
    }
}

/// Relies on num_cpus::get_physical, which counts the host's physical
/// cores and is documented to return at least 1.
#[verifier::external_body]
fn physical_cores() -> (r: usize)
    ensures
        r >= 1,
{
    num_cpus::get_physical()
}

/// The number of workers a pool gets: the host's physical core count.
pub fn pool_size() -> (r: usize)
    ensures
        r >= 1,
{
    physical_cores()
}

/// The job queue, the workers and the results published so far.
pub struct Pool {
    queue: Vec<Message>,
    workers: Vec<Worker>,
    results: Vec<Completion>,
    dispatched: Ghost<Seq<Seq<char>>>,
    stopping: bool,
}

impl View for Pool {
    type V = PoolState;

    closed spec fn view(&self) -> PoolState {
        PoolState {
            queue: self.queue@.map_values(|m: Message| m@),
            phases: self.workers@.map_values(|w: Worker| w.state@),
            results: self.results@.map_values(|c: Completion| c@),
            dispatched: self.dispatched@,
            stopping: self.stopping,
        }
    }
}

impl Pool {
    /// The pool's invariant: the protocol's, and each worker keeps its index
    /// as identifier.
    pub closed spec fn wf(&self) -> bool {
        &&& self@.inv()
        &&& forall|w: int| 0 <= w < self.workers.len() ==> #[trigger] self.workers[w].id == w
    }

    /// A pool of `cores` idle workers, numbered from 0.
    pub fn new(cores: usize) -> (r: Pool)
        requires
            cores >= 1,
        ensures
            r.wf(),
            r@ == PoolState::initial(cores as nat),
    {
        let mut workers: Vec<Worker> = Vec::new();
        let mut i: usize = 0;
        while i < cores
            invariant
                i <= cores,
                workers.len() == i,
                forall|w: int| 0 <= w < i ==> #[trigger] workers[w].id == w,
                forall|w: int| 0 <= w < i ==> #[trigger] workers[w].state@ == Phase::Idle,
            decreases cores - i,
        {
            workers.push(Worker::new(i));
            i = i + 1;
        }
        let r = Pool {
            queue: Vec::new(),
            workers,
            results: Vec::new(),
            dispatched: Ghost(Seq::empty()),
            stopping: false,
        };
        proof {
            lemma_initial(cores as nat);
            assert(r@.queue =~= Seq::empty());
            assert(r@.results =~= Seq::empty());
            assert(r@.phases =~= PoolState::initial(cores as nat).phases);
        }
        r
    }

    /// A pool with one worker per physical core of the host.
    pub fn with_physical_cores() -> (r: Pool)
        ensures
            r.wf(),
            exists|c: nat| c >= 1 && r@ == PoolState::initial(c),
    {
        Pool::new(physical_cores())
    }

    /// The number of workers.
    pub fn size(&self) -> (r: usize)
        ensures
            r == self@.phases.len(),
    {
        self.workers.len()
    }

    /// The number of entries in the job queue.
    pub fn queue_len(&self) -> (r: usize)
        ensures
            r == self@.queue.len(),
    {
        self.queue.len()
    }

    /// The number of results published so far.
    pub fn result_count(&self) -> (r: usize)
        ensures
            r == self@.results.len(),
    {
        self.results.len()
    }

    /// The results published so far, in publishing order.
    pub fn results(&self) -> (r: &Vec<Completion>)
        ensures
            r@.map_values(|c: Completion| c@) == self@.results,
    {
        &self.results
    }

    /// Whether worker `w` has terminated.
    pub fn is_terminated(&self, w: usize) -> (r: bool)
        requires
            w < self@.phases.len(),
        ensures
            r == (self@.phases[w as int] == Phase::Terminated),
    {
        !self.workers[w].is_running()
    }

    /// Appends `job` to the queue.
    pub fn dispatch(&mut self, job: Job)
        requires
            old(self).wf(),
            !old(self)@.stopping,
        ensures
            final(self).wf(),
            final(self)@ == old(self)@.dispatch(job.data@),
    {
        proof {
            lemma_dispatch(self@, job.data@);
        }
        let ghost d = job.data@;
        self.queue.push(Message::Work(job));
        self.dispatched = Ghost(self.dispatched@.push(d));
        proof {
            assert(self@.queue =~= old(self)@.dispatch(d).queue);
        }
    }
}

impl Pool {
    /// Idle worker `w` takes the head of the queue.
    pub fn take(&mut self, w: usize)
        requires
            old(self).wf(),
            old(self)@.can_take(w as int),
        ensures
            final(self).wf(),
            final(self)@ == old(self)@.take(w as int),
    {
        proof {
            lemma_take(self@, w as int);
        }
        let msg = self.queue.remove(0);
        self.workers[w].receive(msg);
        proof {
            assert(self@.queue =~= old(self)@.take(w as int).queue);
            assert(self@.phases =~= old(self)@.take(w as int).phases);
        }
    }

    /// Busy worker `w` publishes its result.
    pub fn finish(&mut self, w: usize)
        requires
            old(self).wf(),
            old(self)@.can_finish(w as int),
        ensures
            final(self).wf(),
            final(self)@ == old(self)@.finish(w as int),
    {
        proof {
            lemma_finish(self@, w as int);
        }
        let c = self.workers[w].finish();
        self.results.push(c);
        proof {
            assert(self@.results =~= old(self)@.finish(w as int).results);
            assert(self@.phases =~= old(self)@.finish(w as int).phases);
        }
    }

    /// Sends one stop signal per worker.
    pub fn shut_down(&mut self)
        requires
            old(self).wf(),
            old(self)@.can_shut_down(),
        ensures
            final(self).wf(),
            final(self)@ == old(self)@.shut_down(),
    {
        proof {
            lemma_shut_down(self@);
        }
        let n = self.workers.len();
        let ghost q0 = self@.queue;
        let mut i: usize = 0;
        while i < n
            invariant
                i <= n,
                n == self.workers.len(),
                self.workers == old(self).workers,
                self.results == old(self).results,
                self.dispatched == old(self).dispatched,
                self.stopping == old(self).stopping,
                self@.queue =~= q0 + Seq::new(i as nat, |k: int| crate::worker::Entry::Stop),
            decreases n - i,
        {
            let ghost prev = self@.queue;
            self.queue.push(Message::Stop);
            proof {
                assert(self@.queue =~= prev.push(crate::worker::Entry::Stop));
            }
            i = i + 1;
            proof {
                assert(self@.queue =~= q0 + Seq::new(i as nat, |k: int| crate::worker::Entry::Stop));
            }
        }
        self.stopping = true;
        proof {
            assert(self@ == old(self)@.shut_down());
        }
    }

    /// One move of the worker nearest after `preferred`, counting round the
    /// pool, that can move: a busy worker publishes, an idle one takes the
    /// head of the queue. Answers whether any worker could move.
    pub fn step(&mut self, preferred: usize) -> (r: bool)
        requires
            old(self).wf(),
        ensures
            final(self).wf(),
            r ==> exists|w: int|
                #[trigger] old(self)@.can_move(w) && final(self)@ == old(self)@.after(w),
            !r ==> final(self)@ == old(self)@,
            !r ==> forall|w: int| !#[trigger] old(self)@.can_move(w),
    {
        let n = self.workers.len();
        let start = preferred % n;
        let mut i: usize = 0;
        while i < n
            invariant
                n == self.workers.len(),
                n == self@.phases.len(),
                start < n,
                i <= n,
                self.wf(),
                self == old(self),
                forall|j: int|
                    0 <= j < i ==> !self@.can_move(#[trigger] round(start as int, j, n as int)),
            decreases n - i,
        {
            let w = if i < n - start {
                start + i
            } else {
                i - (n - start)
            };
            assert(w == round(start as int, i as int, n as int));
            if self.workers[w].is_busy() {
                proof {
                    assert(old(self)@.can_move(w as int));
                }
                self.finish(w);
                return true;
            }
            if self.workers[w].is_idle() && self.queue.len() > 0 {
                proof {
                    assert(old(self)@.can_move(w as int));
                }
                self.take(w);
                return true;
            }
            i = i + 1;
        }
        proof {
            assert(self@ == old(self)@);
            assert forall|w: int| !#[trigger] old(self)@.can_move(w) by {
                if 0 <= w < n {
                    let j = if w >= start { w - start } else { w + n - start };
                    assert(round(start as int, j, n as int) == w);
                    assert(!self@.can_move(round(start as int, j, n as int)));
                }
            }
        }
        false
    }

    /// One move under the schedule `picks`: the worker named at turn `k`
    /// is preferred, and the next turn is returned.
    fn advance(&mut self, picks: &Vec<usize>, k: usize) -> (next: usize)
        requires
            old(self).wf(),
            old(self)@.busy(),
        ensures
            final(self).wf(),
            final(self)@.remaining() < old(self)@.remaining(),
            final(self)@.phases.len() == old(self)@.phases.len(),
            final(self)@.dispatched == old(self)@.dispatched,
            final(self)@.stopping == old(self)@.stopping,
            old(self)@.stopping ==> final(self)@.results == old(self)@.results,
    {
        let preferred = if k < picks.len() {
            picks[k]
        } else {
            0
        };
        let ghost before = self@;
        proof {
            lemma_can_move(before);
        }
        let moved = self.step(preferred);
        proof {
            let w0 = choose|w: int| #[trigger] before.can_move(w);
            if !moved {
                assert(!before.can_move(w0));
            }
            let w = choose|w: int| #[trigger] before.can_move(w) && self@ == before.after(w);
            lemma_move(before, w);
        }
        if picks.len() > 0 && k < picks.len() - 1 {
            k + 1
        } else {
            0
        }
    }

    /// Runs the whole protocol on a pool of `cores` workers: dispatches
    /// `jobs` in order, moves workers until every job has its result, sends
    /// the stop signals, and moves workers until every one has stopped. The
    /// worker that moves at each turn is taken from `picks` in turn, or the
    /// next one round the pool that can move.
    pub fn run(cores: usize, jobs: &Vec<String>, picks: &Vec<usize>) -> (r: Pool)
        requires
            cores >= 1,
        ensures
            r.wf(),
            r@.phases.len() == cores,
            r@.dispatched == jobs@.map_values(|s: String| s@),
            r@.stopping,
            r@.queue.len() == 0,
            forall|w: int| 0 <= w < cores ==> r@.phases[w] == Phase::Terminated,
            r@.results.len() == jobs.len(),
            r@.result_data().to_multiset() == r@.dispatched.to_multiset(),
            cores == 1 ==> r@.result_data() == r@.dispatched,
            forall|i: int| 0 <= i < r@.results.len() ==> r@.results[i].0 < cores,
    {
        let mut pool = Pool::new(cores);
        let mut i: usize = 0;
        while i < jobs.len()
            invariant
                pool.wf(),
                !pool@.stopping,
                i <= jobs.len(),
                pool@.phases.len() == cores,
                pool@.dispatched == jobs@.take(i as int).map_values(|s: String| s@),
            decreases jobs.len() - i,
        {
            pool.dispatch(Job::new(jobs[i].clone()));
            i = i + 1;
            proof {
                assert(jobs@.take(i as int) =~= jobs@.take(i - 1).push(jobs@[i - 1]));
                assert(pool@.dispatched =~= jobs@.take(i as int).map_values(|s: String| s@));
            }
        }
        proof {
            assert(jobs@.take(i as int) =~= jobs@);
        }
        let mut k: usize = 0;
        while pool.result_count() < jobs.len()
            invariant
                pool.wf(),
                !pool@.stopping,
                pool@.phases.len() == cores,
                pool@.dispatched == jobs@.map_values(|s: String| s@),
            decreases pool@.remaining(),
        {
            k = pool.advance(picks, k);
        }
        proof {
            law_results_match_jobs(pool@);
        }
        pool.shut_down();
        while pool.queue_len() > 0
            invariant
                pool.wf(),
                pool@.stopping,
                pool@.phases.len() == cores,
                pool@.dispatched == jobs@.map_values(|s: String| s@),
                pool@.results.len() == jobs.len(),
                pool@.result_data().to_multiset() == pool@.dispatched.to_multiset(),
            decreases pool@.remaining(),
        {
            k = pool.advance(picks, k);
        }
        proof {
            law_all_terminated(pool@);
            if cores == 1 {
                law_single_worker_order(pool@);
                assert(pool@.dispatched.take(pool@.results.len() as int) =~= pool@.dispatched);
            }
        }
        pool
    }

    /// The published results, in publishing order.
    pub fn into_results(self) -> (r: Vec<Completion>)
        ensures
            r@.map_values(|c: Completion| c@) == self@.results,
    {
        self.results
    }
}

} // verus!
