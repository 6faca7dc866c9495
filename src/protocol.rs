//! The pool as a state machine: the job queue, each worker's phase, the
//! results published so far and the jobs dispatched so far; the four moves of
//! the protocol; and what holds in every state that the moves reach.

use vstd::prelude::*;
use crate::worker::{Entry, Phase, phase_after};

verus! {

broadcast use vstd::seq_lib::group_to_multiset_ensures;

/// The payloads in the queue entries of `q`, in queue order.
pub open spec fn queued_work(q: Seq<Entry>) -> Seq<Seq<char>>
    decreases q.len(),
{
    if q.len() == 0 {
        Seq::empty()
    } else {
        let head = match q[0] {
            Entry::Work(d) => seq![d],
            Entry::Stop => Seq::empty(),
        };
        head + queued_work(q.drop_first())
    }
}

/// The job payload a worker in phase `p` is working on, if any.
pub open spec fn job_of(p: Phase) -> Seq<Seq<char>> {
    match p {
        Phase::Busy(d) => seq![d],
        _ => Seq::empty(),
    }
}

/// The payloads the workers in `ps` are working on, by worker.
pub open spec fn in_flight(ps: Seq<Phase>) -> Seq<Seq<char>>
    decreases ps.len(),
{
    if ps.len() == 0 {
        Seq::empty()
    } else {
        job_of(ps[0]) + in_flight(ps.drop_first())
    }
}

/// How many of the workers in `ps` have not terminated.
pub open spec fn running_count(ps: Seq<Phase>) -> nat
    decreases ps.len(),
{
    if ps.len() == 0 {
        0
    } else {
        (if ps[0] == Phase::Terminated { 0nat } else { 1nat }) + running_count(ps.drop_first())
    }
}

proof fn lemma_queued_work_concat(a: Seq<Entry>, b: Seq<Entry>)
    ensures
        queued_work(a + b) == queued_work(a) + queued_work(b),
    decreases a.len(),
{
    if a.len() == 0 {
        assert(a + b =~= b);
        assert(queued_work(a) + queued_work(b) =~= queued_work(b));
    } else {
        assert((a + b).drop_first() =~= a.drop_first() + b);
        lemma_queued_work_concat(a.drop_first(), b);
        let h = match a[0] {
            Entry::Work(d) => seq![d],
            Entry::Stop => Seq::<Seq<char>>::empty(),
        };
        assert(h + (queued_work(a.drop_first()) + queued_work(b)) =~= (h + queued_work(
            a.drop_first(),
        )) + queued_work(b));
    }
}

proof fn lemma_queued_work_push(q: Seq<Entry>, e: Entry)
    ensures
        queued_work(q.push(e)) == queued_work(q) + match e {
            Entry::Work(d) => seq![d],
            Entry::Stop => Seq::empty(),
        },
{
    lemma_queued_work_concat(q, seq![e]);
    assert(q + seq![e] =~= q.push(e));
    let s = seq![e];
    assert(s.drop_first() =~= Seq::<Entry>::empty());
    assert(s[0] == e);
    assert(queued_work(s.drop_first()) == Seq::<Seq<char>>::empty());
    let h = match e {
        Entry::Work(d) => seq![d],
        Entry::Stop => Seq::<Seq<char>>::empty(),
    };
    assert(h + Seq::<Seq<char>>::empty() =~= h);
}

proof fn lemma_in_flight_concat(a: Seq<Phase>, b: Seq<Phase>)
    ensures
        in_flight(a + b) == in_flight(a) + in_flight(b),
        running_count(a + b) == running_count(a) + running_count(b),
    decreases a.len(),
{
    if a.len() == 0 {
        assert(a + b =~= b);
        assert(in_flight(a) + in_flight(b) =~= in_flight(b));
    } else {
        assert((a + b).drop_first() =~= a.drop_first() + b);
        lemma_in_flight_concat(a.drop_first(), b);
        assert(job_of(a[0]) + (in_flight(a.drop_first()) + in_flight(b)) =~= (job_of(a[0])
            + in_flight(a.drop_first())) + in_flight(b));
    }
}

proof fn lemma_single(p: Phase)
    ensures
        in_flight(seq![p]) == job_of(p),
        running_count(seq![p]) == (if p == Phase::Terminated { 0nat } else { 1nat }),
{
    let s = seq![p];
    assert(s.drop_first() =~= Seq::<Phase>::empty());
    assert(s[0] == p);
    assert(in_flight(s.drop_first()) == Seq::<Seq<char>>::empty());
    assert(running_count(s.drop_first()) == 0);
    assert(job_of(p) + Seq::<Seq<char>>::empty() =~= job_of(p));
}

/// Splits the phases around worker `w`, before and after it is set to `x`.
proof fn lemma_in_flight_update(ps: Seq<Phase>, w: int, x: Phase)
    requires
        0 <= w < ps.len(),
    ensures
        in_flight(ps) == in_flight(ps.take(w)) + job_of(ps[w]) + in_flight(ps.skip(w + 1)),
        in_flight(ps.update(w, x)) == in_flight(ps.take(w)) + job_of(x) + in_flight(
            ps.skip(w + 1),
        ),
        running_count(ps) + (if x == Phase::Terminated { 0nat } else { 1nat }) == running_count(
            ps.update(w, x),
        ) + (if ps[w] == Phase::Terminated { 0nat } else { 1nat }),
{
    let a = ps.take(w);
    let c = ps.skip(w + 1);
    assert(ps =~= a + seq![ps[w]] + c);
    assert(ps.update(w, x) =~= a + seq![x] + c);
    lemma_in_flight_concat(a + seq![ps[w]], c);
    lemma_in_flight_concat(a, seq![ps[w]]);
    lemma_in_flight_concat(a + seq![x], c);
    lemma_in_flight_concat(a, seq![x]);
    lemma_single(ps[w]);
    lemma_single(x);
}

proof fn lemma_no_busy(ps: Seq<Phase>)
    ensures
        (in_flight(ps).len() == 0) <==> (forall|i: int| 0 <= i < ps.len() ==> !(ps[i] is Busy)),
    decreases ps.len(),
{
    if ps.len() > 0 {
        lemma_no_busy(ps.drop_first());
        if forall|i: int| 0 <= i < ps.len() ==> !(ps[i] is Busy) {
            assert forall|i: int| 0 <= i < ps.drop_first().len() implies !(
            ps.drop_first()[i] is Busy) by {
                assert(ps.drop_first()[i] == ps[i + 1]);
            }
        }
        if in_flight(ps).len() == 0 {
            assert forall|i: int| 0 <= i < ps.len() implies !(ps[i] is Busy) by {
                if i > 0 {
                    assert(ps[i] == ps.drop_first()[i - 1]);
                }
            }
        }
    }
}

proof fn lemma_running_count(ps: Seq<Phase>)
    ensures
        running_count(ps) <= ps.len(),
        (running_count(ps) == 0) <==> (forall|i: int|
            0 <= i < ps.len() ==> ps[i] == Phase::Terminated),
        (forall|i: int| 0 <= i < ps.len() ==> ps[i] != Phase::Terminated) ==> running_count(ps)
            == ps.len(),
    decreases ps.len(),
{
    if ps.len() > 0 {
        lemma_running_count(ps.drop_first());
        assert forall|i: int| 0 < i < ps.len() implies ps[i] == ps.drop_first()[i - 1] by {}
        if forall|i: int| 0 <= i < ps.len() ==> ps[i] == Phase::Terminated {
            assert forall|i: int| 0 <= i < ps.drop_first().len() implies ps.drop_first()[i]
                == Phase::Terminated by {
                assert(ps.drop_first()[i] == ps[i + 1]);
            }
        }
        if forall|i: int| 0 <= i < ps.len() ==> ps[i] != Phase::Terminated {
            assert forall|i: int| 0 <= i < ps.drop_first().len() implies ps.drop_first()[i]
                != Phase::Terminated by {
                assert(ps.drop_first()[i] == ps[i + 1]);
            }
        }
    }
}

proof fn lemma_all_work(q: Seq<Entry>)
    requires
        forall|i: int| 0 <= i < q.len() ==> q[i] is Work,
    ensures
        queued_work(q).len() == q.len(),
    decreases q.len(),
{
    if q.len() > 0 {
        assert forall|i: int| 0 <= i < q.drop_first().len() implies q.drop_first()[i] is Work by {
            assert(q.drop_first()[i] == q[i + 1]);
        }
        lemma_all_work(q.drop_first());
    }
}

proof fn lemma_all_stop(q: Seq<Entry>)
    requires
        forall|i: int| 0 <= i < q.len() ==> q[i] == Entry::Stop,
    ensures
        queued_work(q) == Seq::<Seq<char>>::empty(),
    decreases q.len(),
{
    if q.len() > 0 {
        assert forall|i: int| 0 <= i < q.drop_first().len() implies q.drop_first()[i]
            == Entry::Stop by {
            assert(q.drop_first()[i] == q[i + 1]);
        }
        lemma_all_stop(q.drop_first());
        assert(Seq::<Seq<char>>::empty() + Seq::<Seq<char>>::empty() =~= Seq::<
            Seq<char>,
        >::empty());
    }
}

/// A state of the pool.
pub struct PoolState {
    /// The job queue, head first.
    pub queue: Seq<Entry>,
    /// Each worker's phase, by identifier.
    pub phases: Seq<Phase>,
    /// The results published so far, in publishing order: worker and payload.
    pub results: Seq<(nat, Seq<char>)>,
    /// The payloads of the jobs dispatched so far, in dispatch order.
    pub dispatched: Seq<Seq<char>>,
    /// Whether the stop signals have been sent.
    pub stopping: bool,
}

impl PoolState {
    /// A pool of `cores` idle workers, before any job.
    pub open spec fn initial(cores: nat) -> PoolState {
        PoolState {
            queue: Seq::empty(),
            phases: Seq::new(cores, |i: int| Phase::Idle),
            results: Seq::empty(),
            dispatched: Seq::empty(),
            stopping: false,
        }
    }

    /// The payloads of the published results, in publishing order.
    pub open spec fn result_data(self) -> Seq<Seq<char>> {
        self.results.map_values(|r: (nat, Seq<char>)| r.1)
    }

    /// Every job payload the pool holds anywhere: published, in flight, or
    /// queued.
    pub open spec fn accounted(self) -> Seq<Seq<char>> {
        self.result_data() + in_flight(self.phases) + queued_work(self.queue)
    }

    /// Dispatching a job with payload `d` appends it to the queue.
    pub open spec fn dispatch(self, d: Seq<char>) -> PoolState {
        PoolState {
            queue: self.queue.push(Entry::Work(d)),
            dispatched: self.dispatched.push(d),
            ..self
        }
    }

    pub open spec fn can_take(self, w: int) -> bool {
        0 <= w < self.phases.len() && self.phases[w] == Phase::Idle && self.queue.len() > 0
    }

    /// Idle worker `w` takes the head of the queue; no other worker gets it.
    pub open spec fn take(self, w: int) -> PoolState {
        PoolState {
            queue: self.queue.drop_first(),
            phases: self.phases.update(w, phase_after(self.queue[0])),
            ..self
        }
    }

    pub open spec fn can_finish(self, w: int) -> bool {
        0 <= w < self.phases.len() && self.phases[w] is Busy
    }

    /// Busy worker `w` publishes its result and goes back to the queue.
    pub open spec fn finish(self, w: int) -> PoolState {
        PoolState {
            results: self.results.push((w as nat, self.phases[w]->Busy_0)),
            phases: self.phases.update(w, Phase::Idle),
            ..self
        }
    }

    /// Whether worker `w` has a move: to take an entry or to publish.
    pub open spec fn can_move(self, w: int) -> bool {
        self.can_take(w) || self.can_finish(w)
    }

    /// The state after worker `w`'s move.
    pub open spec fn after(self, w: int) -> PoolState {
        if self.can_finish(w) {
            self.finish(w)
        } else {
            self.take(w)
        }
    }

    /// The stop signals go out only once every dispatched job has a result.
    pub open spec fn can_shut_down(self) -> bool {
        !self.stopping && self.results.len() == self.dispatched.len()
    }

    /// One stop signal per worker.
    pub open spec fn shut_down(self) -> PoolState {
        PoolState {
            queue: self.queue + Seq::new(self.phases.len(), |i: int| Entry::Stop),
            stopping: true,
            ..self
        }
    }

    /// A measure that every move but dispatch and shutdown lowers.
    pub open spec fn remaining(self) -> nat {
        2 * self.queue.len() + in_flight(self.phases).len()
    }

    /// Whether the pool still has a move to make on its own: a job to
    /// finish or collect before shutdown, a stop signal to take after it.
    pub open spec fn busy(self) -> bool {
        if self.stopping {
            self.queue.len() > 0
        } else {
            self.results.len() < self.dispatched.len()
        }
    }

    /// What holds in every state the moves reach from an initial state.
    pub open spec fn inv(self) -> bool {
        &&& self.phases.len() >= 1
        &&& forall|i: int| 0 <= i < self.results.len() ==> self.results[i].0 < self.phases.len()
        &&& self.accounted().to_multiset() == self.dispatched.to_multiset()
        &&& self.phases.len() == 1 ==> self.accounted() == self.dispatched
        &&& !self.stopping ==> {
            &&& forall|i: int| 0 <= i < self.queue.len() ==> self.queue[i] is Work
            &&& forall|w: int| 0 <= w < self.phases.len() ==> self.phases[w] != Phase::Terminated
        }
        &&& self.stopping ==> {
            &&& forall|i: int| 0 <= i < self.queue.len() ==> self.queue[i] == Entry::Stop
            &&& forall|w: int| 0 <= w < self.phases.len() ==> !(self.phases[w] is Busy)
            &&& self.queue.len() == running_count(self.phases)
            &&& self.results.len() == self.dispatched.len()
        }
    }
}

pub proof fn lemma_initial(cores: nat)
    requires
        cores >= 1,
    ensures
        PoolState::initial(cores).inv(),
{
    let s = PoolState::initial(cores);
    lemma_no_busy(s.phases);
    assert(s.result_data() =~= Seq::empty());
    assert(s.accounted() =~= Seq::empty());
}

pub proof fn lemma_dispatch(s: PoolState, d: Seq<char>)
    requires
        s.inv(),
        !s.stopping,
    ensures
        s.dispatch(d).inv(),
{
    let t = s.dispatch(d);
    lemma_queued_work_push(s.queue, Entry::Work(d));
    assert(t.result_data() == s.result_data());
    assert(t.accounted() =~= s.accounted().push(d));
}

pub proof fn lemma_take(s: PoolState, w: int)
    requires
        s.inv(),
        s.can_take(w),
    ensures
        s.take(w).inv(),
        s.take(w).remaining() < s.remaining(),
        s.take(w).busy() == s.busy() || s.stopping,
{
    broadcast use vstd::seq_lib::lemma_multiset_commutative;

    let t = s.take(w);
    let e = s.queue[0];
    assert(s.queue =~= seq![e] + s.queue.drop_first());
    lemma_queued_work_concat(seq![e], s.queue.drop_first());
    lemma_queued_work_push(Seq::empty(), e);
    assert(Seq::<Entry>::empty().push(e) =~= seq![e]);
    lemma_in_flight_update(s.phases, w, phase_after(e));
    let a = in_flight(s.phases.take(w));
    let b = in_flight(s.phases.skip(w + 1));
    let r = s.result_data();
    let rest = queued_work(s.queue.drop_first());
    assert(t.result_data() == r);
    assert forall|i: int| 0 <= i < t.queue.len() implies t.queue[i] == s.queue[i + 1] by {}
    match e {
        Entry::Work(d) => {
            assert(queued_work(Seq::<Entry>::empty()) =~= Seq::empty());
            assert(s.accounted() =~= r + (a + b) + (seq![d] + rest));
            assert(t.accounted() =~= r + (a + seq![d] + b) + rest);
            assert(t.accounted().to_multiset() =~= s.accounted().to_multiset());
            if s.phases.len() == 1 {
                assert(a =~= Seq::empty()) by {
                    assert(s.phases.take(w) =~= Seq::empty());
                }
                assert(b =~= Seq::empty()) by {
                    assert(s.phases.skip(w + 1) =~= Seq::empty());
                }
                assert(t.accounted() =~= s.accounted());
            }
        },
        Entry::Stop => {
            assert(queued_work(Seq::<Entry>::empty()) =~= Seq::empty());
            assert(t.accounted() =~= s.accounted());
            lemma_no_busy(s.phases);
            lemma_no_busy(t.phases);
        },
    }
}

pub proof fn lemma_finish(s: PoolState, w: int)
    requires
        s.inv(),
        s.can_finish(w),
    ensures
        s.finish(w).inv(),
        s.finish(w).remaining() < s.remaining(),
{
    broadcast use vstd::seq_lib::lemma_multiset_commutative;

    let t = s.finish(w);
    let d = s.phases[w]->Busy_0;
    lemma_in_flight_update(s.phases, w, Phase::Idle);
    let a = in_flight(s.phases.take(w));
    let b = in_flight(s.phases.skip(w + 1));
    let r = s.result_data();
    let q = queued_work(s.queue);
    assert(t.result_data() =~= r.push(d));
    assert(s.accounted() =~= r + (a + seq![d] + b) + q);
    assert(t.accounted() =~= r.push(d) + (a + b) + q);
    assert(t.accounted().to_multiset() =~= s.accounted().to_multiset());
    if s.phases.len() == 1 {
        assert(s.phases.take(w) =~= Seq::empty());
        assert(s.phases.skip(w + 1) =~= Seq::empty());
        assert(t.accounted() =~= s.accounted());
    }
    assert(s.stopping ==> !(s.phases[w] is Busy));
}

pub proof fn lemma_shut_down(s: PoolState)
    requires
        s.inv(),
        s.can_shut_down(),
    ensures
        s.shut_down().inv(),
{
    let t = s.shut_down();
    let stops = Seq::new(s.phases.len(), |i: int| Entry::Stop);
    assert(s.accounted().to_multiset().len() == s.accounted().len());
    assert(s.result_data().len() == s.results.len());
    lemma_all_work(s.queue);
    lemma_no_busy(s.phases);
    lemma_running_count(s.phases);
    assert(s.queue.len() == 0);
    assert(t.queue =~= stops);
    lemma_all_stop(stops);
    assert(t.accounted() == s.accounted());
    assert(in_flight(s.phases) =~= Seq::empty());
}

/// A pool that still has work has a worker that can move.
pub proof fn lemma_can_move(s: PoolState)
    requires
        s.inv(),
        s.busy(),
    ensures
        exists|w: int| #[trigger] s.can_move(w),
{
    lemma_no_busy(s.phases);
    lemma_running_count(s.phases);
    if s.stopping {
        let w = choose|w: int| 0 <= w < s.phases.len() && s.phases[w] != Phase::Terminated;
        assert(s.can_move(w));
    } else if in_flight(s.phases).len() > 0 {
        let w = choose|w: int| 0 <= w < s.phases.len() && s.phases[w] is Busy;
        assert(s.can_move(w));
    } else {
        assert(s.accounted().to_multiset().len() == s.accounted().len());
        assert(s.result_data().len() == s.results.len());
        assert(s.can_move(0));
    }
}

/// A worker's move keeps the invariant and lowers the measure; it leaves
/// the number of workers, the dispatched jobs and the shutdown flag alone.
pub proof fn lemma_move(s: PoolState, w: int)
    requires
        s.inv(),
        s.can_move(w),
    ensures
        s.after(w).inv(),
        s.after(w).remaining() < s.remaining(),
        s.after(w).phases.len() == s.phases.len(),
        s.after(w).dispatched == s.dispatched,
        s.after(w).stopping == s.stopping,
        s.after(w).results.len() >= s.results.len(),
{
    if s.can_finish(w) {
        lemma_finish(s, w);
    } else {
        lemma_take(s, w);
    }
}

/// Once as many results have been published as jobs were dispatched, the
/// results carry exactly the dispatched payloads: each as often as it was
/// dispatched, none lost and none doubled. There are never more results than
/// jobs.
pub proof fn law_results_match_jobs(s: PoolState)
    requires
        s.inv(),
        s.results.len() >= s.dispatched.len(),
    ensures
        s.results.len() == s.dispatched.len(),
        s.result_data().len() == s.dispatched.len(),
        s.result_data().to_multiset() == s.dispatched.to_multiset(),
{
    assert(s.accounted().to_multiset().len() == s.accounted().len());
    assert(s.result_data().len() == s.results.len());
    assert(in_flight(s.phases).len() == 0);
    assert(queued_work(s.queue).len() == 0);
    assert(s.accounted() =~= s.result_data());
}

/// Each dispatched job is, at any time, in exactly one place: published,
/// held by one worker, or waiting in the queue. No job reaches two workers.
pub proof fn law_exactly_once(s: PoolState, d: Seq<char>)
    requires
        s.inv(),
    ensures
        s.result_data().to_multiset().count(d) + in_flight(s.phases).to_multiset().count(d)
            + queued_work(s.queue).to_multiset().count(d) == s.dispatched.to_multiset().count(d),
{
    broadcast use vstd::seq_lib::lemma_multiset_commutative;
    broadcast use vstd::multiset::group_multiset_axioms;

    let r = s.result_data();
    let f = in_flight(s.phases);
    let q = queued_work(s.queue);
    assert(s.accounted().to_multiset() =~= r.to_multiset().add(f.to_multiset()).add(
        q.to_multiset(),
    ));
}

/// After the stop signals are sent no worker waits forever: every running
/// worker is idle at the queue, there is one stop signal in the queue for
/// each of them, so the queue is empty exactly when no worker runs.
pub proof fn law_no_deadlock(s: PoolState)
    requires
        s.inv(),
        s.stopping,
    ensures
        s.queue.len() == running_count(s.phases),
        forall|w: int|
            0 <= w < s.phases.len() && s.phases[w] != Phase::Terminated ==> #[trigger] s.can_take(
                w,
            ) || s.queue.len() == 0,
        s.queue.len() > 0 <==> exists|w: int| #[trigger] s.can_take(w),
{
    lemma_running_count(s.phases);
    if s.queue.len() > 0 {
        let w = choose|w: int| 0 <= w < s.phases.len() && s.phases[w] != Phase::Terminated;
        assert(s.can_take(w));
    }
}


/// Once the stop signals are all taken, every worker of the pool has
/// terminated.
pub proof fn law_all_terminated(s: PoolState)
    requires
        s.inv(),
        s.stopping,
        s.queue.len() == 0,
    ensures
        forall|w: int| 0 <= w < s.phases.len() ==> s.phases[w] == Phase::Terminated,
{
    lemma_running_count(s.phases);
}

/// With a single worker the results come in dispatch order.
pub proof fn law_single_worker_order(s: PoolState)
    requires
        s.inv(),
        s.phases.len() == 1,
    ensures
        s.result_data() == s.dispatched.take(s.results.len() as int),
{
    assert(s.result_data().len() == s.results.len());
    assert(s.accounted().take(s.results.len() as int) =~= s.result_data());
}

} // verus!
