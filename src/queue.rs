//! The job queue shared by the producer and the workers of a pool.
//!
//! The queue is a FIFO with a close signal. After `close`, no job is accepted,
//! but the jobs already queued are still handed out before any taker is told
//! that the queue is closed.
use vstd::prelude::*;
use std::collections::VecDeque;

verus! {

/// What a worker receives when it asks the queue for work.
pub enum Take<T> {
    /// The oldest queued job, now owned by the taker.
    Job(T),
    /// Nothing is queued, but more may come: wait and ask again.
    Wait,
    /// The queue is closed and drained: the worker should stop.
    Closed,
}

/// The abstract state of a queue: the jobs waiting, oldest first, and whether
/// it has been closed.
pub struct QueueState<T> {
    pub pending: Seq<T>,
    pub closed: bool,
}

/// The state after offering `job`: queued at the back when open, refused when closed.
pub open spec fn submit_state<T>(q: QueueState<T>, job: T) -> QueueState<T> {
    if q.closed {
        q
    } else {
        QueueState { pending: q.pending.push(job), closed: false }
    }
}

/// The state after one take.
pub open spec fn take_state<T>(q: QueueState<T>) -> QueueState<T> {
    if q.pending.len() > 0 {
        QueueState { pending: q.pending.drop_first(), closed: q.closed }
    } else {
        q
    }
}

/// What one take hands out.
pub open spec fn take_result<T>(q: QueueState<T>) -> Take<T> {
    if q.pending.len() > 0 {
        Take::Job(q.pending[0])
    } else if q.closed {
        Take::Closed
    } else {
        Take::Wait
    }
}

/// The state after closing.
pub open spec fn close_state<T>(q: QueueState<T>) -> QueueState<T> {
    QueueState { pending: q.pending, closed: true }
}

/// One operation on a queue, as the producer and the workers issue them.
pub enum Step<T> {
    Submit(T),
    Take,
    Close,
}

/// What a run of steps does: the jobs the queue accepted, the jobs it handed
/// out (both in order), and the state it ends in.
pub struct Outcome<T> {
    pub accepted: Seq<T>,
    pub delivered: Seq<T>,
    pub state: QueueState<T>,
}

/// Runs `steps` in order from `q`.
pub open spec fn run<T>(q: QueueState<T>, steps: Seq<Step<T>>) -> Outcome<T>
    decreases steps.len(),
{
    if steps.len() == 0 {
        Outcome { accepted: Seq::empty(), delivered: Seq::empty(), state: q }
    } else {
        let o = run(q, steps.drop_last());
        match steps.last() {
            Step::Submit(j) => {
                if o.state.closed {
                    o
                } else {
                    Outcome {
                        accepted: o.accepted.push(j),
                        delivered: o.delivered,
                        state: submit_state(o.state, j),
                    }
                }
            },
            Step::Take => {
                match take_result(o.state) {
                    Take::Job(j) => Outcome {
                        accepted: o.accepted,
                        delivered: o.delivered.push(j),
                        state: take_state(o.state),
                    },
                    _ => o,
                }
            },
            Step::Close => Outcome {
                accepted: o.accepted,
                delivered: o.delivered,
                state: close_state(o.state),
            },
        }
    }
}

/// The state after `n` takes.
pub open spec fn take_n<T>(q: QueueState<T>, n: nat) -> QueueState<T>
    decreases n,
{
    if n == 0 {
        q
    } else {
        take_state(take_n(q, (n - 1) as nat))
    }
}

/// However submissions, takes and closes interleave, the jobs handed out
/// followed by those still waiting are exactly the jobs that were waiting at
/// the start followed by those accepted: each accepted job is handed out at
/// most once, in the order of submission, and none is lost.
pub proof fn lemma_each_job_delivered_once<T>(q: QueueState<T>, steps: Seq<Step<T>>)
    ensures
        run(q, steps).delivered + run(q, steps).state.pending == q.pending + run(q, steps).accepted,
    decreases steps.len(),
{
    if steps.len() > 0 {
        let o = run(q, steps.drop_last());
        lemma_each_job_delivered_once(q, steps.drop_last());
        match steps.last() {
            Step::Submit(j) => {
                if !o.state.closed {
                    assert(o.delivered + o.state.pending.push(j) =~= (o.delivered
                        + o.state.pending).push(j));
                    assert(q.pending + o.accepted.push(j) =~= (q.pending + o.accepted).push(j));
                }
            },
            Step::Take => {
                if o.state.pending.len() > 0 {
                    assert(o.delivered.push(o.state.pending[0]) + o.state.pending.drop_first()
                        =~= o.delivered + o.state.pending);
                }
            },
            Step::Close => {},
        }
    }
}

/// Once a queue is closed it stays closed and refuses every submission, so
/// that the jobs accepted are those accepted before the close.
pub proof fn lemma_closed_stays_closed<T>(q: QueueState<T>, steps: Seq<Step<T>>)
    requires
        q.closed,
    ensures
        run(q, steps).state.closed,
        run(q, steps).accepted == Seq::<T>::empty(),
    decreases steps.len(),
{
    if steps.len() > 0 {
        lemma_closed_stays_closed(q, steps.drop_last());
    }
}

/// After a close, the jobs still waiting are handed out one per take, oldest
/// first, and only then does a take report the queue closed.
pub proof fn lemma_close_drains<T>(q: QueueState<T>)
    requires
        q.closed,
    ensures
        forall|i: nat| #![trigger take_n(q, i)]
            i < q.pending.len() ==> take_result(take_n(q, i)) == Take::Job(q.pending[i as int]),
        take_result(take_n(q, q.pending.len())) == Take::<T>::Closed,
{
    assert forall|i: nat| i <= q.pending.len() implies take_n(q, i) == (QueueState {
        pending: q.pending.subrange(i as int, q.pending.len() as int),
        closed: true,
    }) by {
        lemma_take_n_closed(q, i);
    }
    assert forall|i: nat| #![trigger take_n(q, i)]
        i < q.pending.len() implies take_result(take_n(q, i)) == Take::Job(q.pending[i as int]) by {
        assert(take_n(q, i).pending[0] == q.pending[i as int]);
    }
    assert(take_n(q, q.pending.len()).pending.len() == 0);
}

proof fn lemma_take_n_closed<T>(q: QueueState<T>, i: nat)
    requires
        q.closed,
        i <= q.pending.len(),
    ensures
        take_n(q, i) == (QueueState {
            pending: q.pending.subrange(i as int, q.pending.len() as int),
            closed: true,
        }),
    decreases i,
{
    if i == 0 {
        assert(q.pending.subrange(0, q.pending.len() as int) =~= q.pending);
    } else {
        lemma_take_n_closed(q, (i - 1) as nat);
        let prev = q.pending.subrange(i - 1, q.pending.len() as int);
        assert(prev.drop_first() =~= q.pending.subrange(i as int, q.pending.len() as int));
    }
}

pub struct JobQueue<T> {
    jobs: VecDeque<T>,
    closed: bool,
}

impl<T> View for JobQueue<T> {
    type V = QueueState<T>;

    closed spec fn view(&self) -> QueueState<T> {
        QueueState { pending: self.jobs@, closed: self.closed }
    }
}

impl<T> JobQueue<T> {
    /// An open queue with no jobs.
    pub fn new() -> (r: Self)
        ensures
            r@.pending == Seq::<T>::empty(),
            !r@.closed,
    {
        JobQueue { jobs: VecDeque::new(), closed: false }
    }

    /// Queues `job` behind the others. A closed queue refuses it and hands it
    /// back in `Err`, so that no job is lost silently.
    pub fn submit(&mut self, job: T) -> (r: Result<(), T>)
        ensures
            final(self)@ == submit_state(old(self)@, job),
            old(self)@.closed <==> r is Err,
            r is Err ==> r->Err_0 == job,
    {
        if self.closed {
            Err(job)
        } else {
            self.jobs.push_back(job);
            Ok(())
        }
    }

    /// Hands out the oldest job; or says to wait when the queue is open and
    /// empty; or that it is closed and drained.
    pub fn take(&mut self) -> (r: Take<T>)
        ensures
            r == take_result(old(self)@),
            final(self)@ == take_state(old(self)@),
    {
        match self.jobs.pop_front() {
            Some(job) => Take::Job(job),
            None => {
                if self.closed {
                    Take::Closed
                } else {
                    Take::Wait
                }
            },
        }
    }

    /// Closes the queue: later submissions are refused, queued jobs stay.
    pub fn close(&mut self)
        ensures
            final(self)@ == close_state(old(self)@),
    {
        self.closed = true;
    }

    pub fn is_closed(&self) -> (r: bool)
        ensures
            r == self@.closed,
    {
        self.closed
    }

    /// The number of jobs waiting.
    pub fn len(&self) -> (r: usize)
        ensures
            r == self@.pending.len(),
    {
        self.jobs.len()
    }
}

} // verus!
