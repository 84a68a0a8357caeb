//! The scheduling core of the worker pool: one shared queue of jobs and a
//! fixed set of workers that take jobs from it.
//!
//! The pool decides; its caller runs the threads. A worker asks the pool
//! for its next job whenever it has none, runs what it is handed, and
//! asks again.

use std::collections::VecDeque;
use vstd::prelude::*;

verus! {

/// What a worker is doing.
#[derive(Clone, Copy, Debug, PartialEq, Eq, Structural)]
pub enum WorkerState {
    /// It waits for a job.
    Idle,
    /// It runs the job that it was handed last.
    Busy,
    /// It has terminated.
    Stopped,
}

/// What became of a submitted job.
#[derive(Clone, Copy, Debug, PartialEq, Eq, Structural)]
pub enum Submission {
    /// The job waits in the queue.
    Queued,
    /// The queue was closed; the job was dropped.
    Dropped,
}

/// What a worker is told when it asks for its next job.
#[derive(Debug, PartialEq, Eq)]
pub enum Dispatch<T> {
    /// Run this job, then ask again.
    Run(T),
    /// The queue is empty and open: wait for a submission, then ask again.
    Wait,
    /// Terminate.
    Stop,
}

/// A pool as mathematical data: the jobs that wait, oldest first, whether
/// the queue is open, and the state of each worker by its index.
pub struct PoolView<T> {
    pub queue: Seq<T>,
    pub open: bool,
    pub workers: Seq<WorkerState>,
}

/// A new pool of `size` workers: nothing waits, the queue is open and
/// every worker is idle.
pub open spec fn created<T>(size: nat) -> PoolView<T> {
    PoolView {
        queue: Seq::empty(),
        open: true,
        workers: Seq::new(size, |i: int| WorkerState::Idle),
    }
}

/// The pool after `job` is submitted: it joins the end of an open queue,
/// and a closed queue stays as it is.
pub open spec fn submitted<T>(pool: PoolView<T>, job: T) -> PoolView<T> {
    if pool.open {
        PoolView { queue: pool.queue.push(job), ..pool }
    } else {
        pool
    }
}

/// The pool after its queue is closed.
pub open spec fn closed<T>(pool: PoolView<T>) -> PoolView<T> {
    PoolView { open: false, ..pool }
}

/// Tells whether `worker` is the index of a worker that has not stopped.
pub open spec fn alive<T>(pool: PoolView<T>, worker: int) -> bool {
    0 <= worker < pool.workers.len() && pool.workers[worker] != WorkerState::Stopped
}

/// What `worker` is told when it asks: the oldest job that waits; to wait,
/// where none does and the queue is open; to stop, where none does and
/// the queue is closed.
pub open spec fn answer<T>(pool: PoolView<T>, worker: int) -> Dispatch<T> {
    if !alive(pool, worker) {
        Dispatch::Stop
    } else if pool.queue.len() > 0 {
        Dispatch::Run(pool.queue[0])
    } else if pool.open {
        Dispatch::Wait
    } else {
        Dispatch::Stop
    }
}

/// The pool after `worker` has asked.
pub open spec fn asked<T>(pool: PoolView<T>, worker: int) -> PoolView<T> {
    if !alive(pool, worker) {
        pool
    } else if pool.queue.len() > 0 {
        PoolView {
            queue: pool.queue.drop_first(),
            workers: pool.workers.update(worker, WorkerState::Busy),
            ..pool
        }
    } else if pool.open {
        PoolView { workers: pool.workers.update(worker, WorkerState::Idle), ..pool }
    } else {
        PoolView { workers: pool.workers.update(worker, WorkerState::Stopped), ..pool }
    }
}

/// Tells whether every worker has stopped.
pub open spec fn all_stopped(workers: Seq<WorkerState>) -> bool {
    forall|i: int| 0 <= i < workers.len() ==> #[trigger] workers[i] == WorkerState::Stopped
}

/// What holds of every pool that has a history: a worker stops only once
/// the queue is closed and empty.
pub open spec fn sound<T>(pool: PoolView<T>) -> bool {
    forall|i: int|
        0 <= i < pool.workers.len() && #[trigger] pool.workers[i] == WorkerState::Stopped
            ==> !pool.open && pool.queue.len() == 0
}

/// A pool: the jobs that wait, whether more are accepted, and what each
/// worker is doing. The number of workers is fixed when the pool is made.
pub struct Pool<T> {
    queue: VecDeque<T>,
    open: bool,
    workers: Vec<WorkerState>,
}

impl<T> View for Pool<T> {
    type V = PoolView<T>;

    closed spec fn view(&self) -> PoolView<T> {
        PoolView { queue: self.queue@, open: self.open, workers: self.workers@ }
    }
}

impl<T> Pool<T> {
    /// Returns a pool of `n` workers with an open, empty queue.
    pub fn with_capacity(n: usize) -> (pool: Pool<T>)
        ensures
            pool@ == created::<T>(n as nat),
            sound(pool@),
    {
        let mut workers: Vec<WorkerState> = Vec::new();
        let mut i: usize = 0;
        while i < n
            invariant
                i <= n,
                workers@.len() == i,
                forall|k: int| 0 <= k < i ==> workers@[k] == WorkerState::Idle,
            decreases n - i,
        {
            workers.push(WorkerState::Idle);
            i += 1;
        }
        let pool = Pool { queue: VecDeque::new(), open: true, workers };
        assert(pool@.workers =~= created::<T>(n as nat).workers);
        pool
    }

    /// Submits a job. It is queued where the queue is open, and dropped
    /// where it is closed.
    pub fn execute(&mut self, job: T) -> (submission: Submission)
        ensures
            final(self)@ == submitted(old(self)@, job),
            submission == if old(self)@.open {
                Submission::Queued
            } else {
                Submission::Dropped
            },
            sound(old(self)@) ==> sound(final(self)@),
    {
        if self.open {
            self.queue.push_back(job);
            Submission::Queued
        } else {
            Submission::Dropped
        }
    }

    /// Closes the queue: nothing more is accepted, and what waits is still
    /// handed out.
    pub fn close(&mut self)
        ensures
            final(self)@ == closed(old(self)@),
            sound(old(self)@) ==> sound(final(self)@),
    {
        self.open = false;
    }

    /// Takes the request of `worker` for its next job. A worker that asks
    /// has finished the job that it was handed before.
    pub fn next_job(&mut self, worker: usize) -> (dispatch: Dispatch<T>)
        ensures
            final(self)@ == asked(old(self)@, worker as int),
            dispatch == answer(old(self)@, worker as int),
            sound(old(self)@) ==> sound(final(self)@),
    {
        if worker >= self.workers.len() {
            return Dispatch::Stop;
        }
        if self.workers[worker] == WorkerState::Stopped {
            return Dispatch::Stop;
        }
        match self.queue.pop_front() {
            Some(job) => {
                self.workers.set(worker, WorkerState::Busy);
                Dispatch::Run(job)
            },
            None => {
                if self.open {
                    self.workers.set(worker, WorkerState::Idle);
                    Dispatch::Wait
                } else {
                    self.workers.set(worker, WorkerState::Stopped);
                    Dispatch::Stop
                }
            },
        }
    }

    /// Returns the number of workers.
    pub fn size(&self) -> (n: usize)
        ensures
            n == self@.workers.len(),
    {
        self.workers.len()
    }

    /// Returns the number of jobs that wait.
    pub fn pending(&self) -> (n: usize)
        ensures
            n == self@.queue.len(),
    {
        self.queue.len()
    }

    /// Tells whether the queue is open.
    pub fn is_open(&self) -> (open: bool)
        ensures
            open == self@.open,
    {
        self.open
    }

    /// Returns the state of `worker`.
    pub fn worker_state(&self, worker: usize) -> (state: Option<WorkerState>)
        ensures
            state == if worker < self@.workers.len() {
                Some(self@.workers[worker as int])
            } else {
                None
            },
    {
        if worker < self.workers.len() {
            Some(self.workers[worker])
        } else {
            None
        }
    }

    /// Tells whether every worker has stopped, so that a shutdown may
    /// return.
    pub fn is_terminated(&self) -> (done: bool)
        ensures
            done == all_stopped(self@.workers),
            done && sound(self@) && self@.workers.len() > 0 ==> !self@.open && self@.queue.len()
                == 0,
    {
        proof {
            if self@.workers.len() > 0 && all_stopped(self@.workers) {
                assert(self@.workers[0] == WorkerState::Stopped);
            }
        }
        let mut i: usize = 0;
        while i < self.workers.len()
            invariant
                i <= self.workers@.len(),
                forall|k: int| 0 <= k < i ==> self.workers@[k] == WorkerState::Stopped,
            decreases self.workers@.len() - i,
        {
            if self.workers[i] != WorkerState::Stopped {
                return false;
            }
            i += 1;
        }
        true
    }
}

/// One thing that happens to a pool.
pub enum PoolOp<T> {
    /// A job is submitted.
    Submit(T),
    /// The worker of this index asks for its next job.
    Ask(int),
    /// The queue is closed.
    Close,
}

/// The pool after `op`.
pub open spec fn apply<T>(pool: PoolView<T>, op: PoolOp<T>) -> PoolView<T> {
    match op {
        PoolOp::Submit(job) => submitted(pool, job),
        PoolOp::Ask(worker) => asked(pool, worker),
        PoolOp::Close => closed(pool),
    }
}

/// The pool after `ops`, in their order.
pub open spec fn run<T>(pool: PoolView<T>, ops: Seq<PoolOp<T>>) -> PoolView<T>
    decreases ops.len(),
{
    if ops.len() == 0 {
        pool
    } else {
        apply(run(pool, ops.drop_last()), ops.last())
    }
}

/// The jobs that `ops` put into the queue, in the order of submission.
pub open spec fn accepted<T>(pool: PoolView<T>, ops: Seq<PoolOp<T>>) -> Seq<T>
    decreases ops.len(),
{
    if ops.len() == 0 {
        Seq::empty()
    } else {
        let before = run(pool, ops.drop_last());
        let earlier = accepted(pool, ops.drop_last());
        match ops.last() {
            PoolOp::Submit(job) if before.open => earlier.push(job),
            _ => earlier,
        }
    }
}

/// The jobs that `ops` handed to workers, in the order of the handing
/// out.
pub open spec fn started<T>(pool: PoolView<T>, ops: Seq<PoolOp<T>>) -> Seq<T>
    decreases ops.len(),
{
    if ops.len() == 0 {
        Seq::empty()
    } else {
        let before = run(pool, ops.drop_last());
        let earlier = started(pool, ops.drop_last());
        match ops.last() {
            PoolOp::Ask(worker) => match answer(before, worker) {
                Dispatch::Run(job) => earlier.push(job),
                _ => earlier,
            },
            _ => earlier,
        }
    }
}

/// The number of jobs that `ops` saw finished: a busy worker that asks
/// has finished its job.
pub open spec fn finished<T>(pool: PoolView<T>, ops: Seq<PoolOp<T>>) -> nat
    decreases ops.len(),
{
    if ops.len() == 0 {
        0
    } else {
        let before = run(pool, ops.drop_last());
        let earlier = finished(pool, ops.drop_last());
        match ops.last() {
            PoolOp::Ask(worker) if 0 <= worker < before.workers.len() && before.workers[worker]
                == WorkerState::Busy => earlier + 1,
            _ => earlier,
        }
    }
}

/// The number of workers that run a job.
pub open spec fn busy(workers: Seq<WorkerState>) -> nat
    decreases workers.len(),
{
    if workers.len() == 0 {
        0
    } else if workers.last() == WorkerState::Busy {
        busy(workers.drop_last()) + 1
    } else {
        busy(workers.drop_last())
    }
}

/// Changing the state of one worker changes the number of busy workers
/// by that worker alone.
proof fn lemma_busy_update(workers: Seq<WorkerState>, worker: int, state: WorkerState)
    requires
        0 <= worker < workers.len(),
    ensures
        busy(workers.update(worker, state)) + (if workers[worker] == WorkerState::Busy {
            1nat
        } else {
            0nat
        }) == busy(workers) + (if state == WorkerState::Busy {
            1nat
        } else {
            0nat
        }),
    decreases workers.len(),
{
    let updated = workers.update(worker, state);
    if worker == workers.len() - 1 {
        assert(updated.drop_last() =~= workers.drop_last());
    } else {
        lemma_busy_update(workers.drop_last(), worker, state);
        assert(updated.drop_last() =~= workers.drop_last().update(worker, state));
    }
}

/// Where every worker has stopped, none is busy.
proof fn lemma_stopped_are_not_busy(workers: Seq<WorkerState>)
    requires
        all_stopped(workers),
    ensures
        busy(workers) == 0,
    decreases workers.len(),
{
    if workers.len() > 0 {
        let fewer = workers.drop_last();
        lemma_stopped_are_not_busy(fewer);
    }
}

/// One step keeps the books: a job joins the queue exactly if it was
/// accepted, leaves it exactly if it was handed out, and the worker that
/// asks is the only one whose state changes.
proof fn lemma_apply<T>(pool: PoolView<T>, op: PoolOp<T>)
    ensures
        apply(pool, op).workers.len() == pool.workers.len(),
        sound(pool) ==> sound(apply(pool, op)),
        busy(apply(pool, op).workers) + (match op {
            PoolOp::Ask(worker) if 0 <= worker < pool.workers.len() && pool.workers[worker]
                == WorkerState::Busy => 1nat,
            _ => 0nat,
        }) == busy(pool.workers) + (match op {
            PoolOp::Ask(worker) if alive(pool, worker) && pool.queue.len() > 0 => 1nat,
            _ => 0nat,
        }),
{
    match op {
        PoolOp::Ask(worker) if alive(pool, worker) => {
            let after = asked(pool, worker);
            lemma_busy_update(pool.workers, worker, after.workers[worker]);
        },
        _ => {},
    }
}

/// No job is lost and none is duplicated: whatever happens to a pool,
/// the jobs that waited at first, followed by those accepted since, are
/// the jobs handed out since, followed by those that wait now, each
/// once and in the order of submission. Of the jobs handed out, each has
/// finished or is the one job of a busy worker. The workers stay as many
/// as they were, and none has stopped before the queue was closed and
/// empty.
pub proof fn lemma_jobs_are_conserved<T>(pool: PoolView<T>, ops: Seq<PoolOp<T>>)
    ensures
        pool.queue + accepted(pool, ops) == started(pool, ops) + run(pool, ops).queue,
        busy(pool.workers) + started(pool, ops).len() == finished(pool, ops) + busy(
            run(pool, ops).workers,
        ),
        run(pool, ops).workers.len() == pool.workers.len(),
        sound(pool) ==> sound(run(pool, ops)),
    decreases ops.len(),
{
    if ops.len() > 0 {
        let before = run(pool, ops.drop_last());
        lemma_jobs_are_conserved(pool, ops.drop_last());
        lemma_apply(before, ops.last());
        let earlier = pool.queue + accepted(pool, ops.drop_last());
        match ops.last() {
            PoolOp::Submit(job) if before.open => {
                assert(pool.queue + accepted(pool, ops) =~= earlier.push(job));
            },
            _ => {},
        }
    }
}

/// A new pool is sound.
pub proof fn lemma_created_is_sound<T>(size: nat)
    ensures
        sound(created::<T>(size)),
        busy(created::<T>(size).workers) == 0,
    decreases size,
{
    let workers = created::<T>(size).workers;
    if size > 0 {
        lemma_created_is_sound::<T>((size - 1) as nat);
        assert(workers.drop_last() =~= created::<T>((size - 1) as nat).workers);
    }
}

/// A job that waits is never kept waiting by the pool: whichever worker
/// asks is handed the oldest job, whether the queue is open or closed.
pub proof fn lemma_waiting_job_is_handed_out<T>(pool: PoolView<T>, worker: int)
    requires
        sound(pool),
        0 <= worker < pool.workers.len(),
        pool.queue.len() > 0,
    ensures
        answer(pool, worker) == Dispatch::Run(pool.queue[0]),
        asked(pool, worker).queue == pool.queue.drop_first(),
        asked(pool, worker).workers[worker] == WorkerState::Busy,
{
}

/// The requests of the workers named in `asks`, in their order.
pub open spec fn requests<T>(asks: Seq<int>) -> Seq<PoolOp<T>> {
    Seq::new(asks.len(), |i: int| PoolOp::Ask(asks[i]))
}

/// As many requests as jobs wait empty the queue, whatever the number of
/// workers and whichever of them ask: the jobs are handed out once each,
/// oldest first.
pub proof fn lemma_queue_drains<T>(pool: PoolView<T>, asks: Seq<int>)
    requires
        sound(pool),
        asks.len() <= pool.queue.len(),
        forall|i: int| 0 <= i < asks.len() ==> 0 <= #[trigger] asks[i] < pool.workers.len(),
    ensures
        started(pool, requests(asks)) == pool.queue.take(asks.len() as int),
        run(pool, requests(asks)).queue == pool.queue.skip(asks.len() as int),
    decreases asks.len(),
{
    if asks.len() > 0 {
        let ops = requests::<T>(asks);
        let fewer = asks.drop_last();
        assert(ops.drop_last() =~= requests::<T>(fewer));
        lemma_queue_drains(pool, fewer);
        lemma_jobs_are_conserved(pool, ops.drop_last());
    }
}

/// The submissions of `jobs`, in their order.
pub open spec fn submissions<T>(jobs: Seq<T>) -> Seq<PoolOp<T>> {
    Seq::new(jobs.len(), |i: int| PoolOp::Submit(jobs[i]))
}

/// What happens in two parts happens part by part.
proof fn lemma_run_in_parts<T>(pool: PoolView<T>, first: Seq<PoolOp<T>>, second: Seq<PoolOp<T>>)
    ensures
        run(pool, first + second) == run(run(pool, first), second),
        accepted(pool, first + second) == accepted(pool, first) + accepted(
            run(pool, first),
            second,
        ),
        started(pool, first + second) == started(pool, first) + started(run(pool, first), second),
    decreases second.len(),
{
    if second.len() > 0 {
        lemma_run_in_parts(pool, first, second.drop_last());
        assert((first + second).drop_last() =~= first + second.drop_last());
    }
}

/// An open pool accepts every job that is submitted, in order, and hands
/// none out by that.
proof fn lemma_submissions_are_queued<T>(pool: PoolView<T>, jobs: Seq<T>)
    requires
        pool.open,
    ensures
        run(pool, submissions(jobs)) == (PoolView { queue: pool.queue + jobs, ..pool }),
        accepted(pool, submissions(jobs)) == jobs,
        started(pool, submissions(jobs)) == Seq::<T>::empty(),
    decreases jobs.len(),
{
    if jobs.len() > 0 {
        lemma_submissions_are_queued(pool, jobs.drop_last());
        assert(submissions(jobs).drop_last() =~= submissions(jobs.drop_last()));
        assert((pool.queue + jobs.drop_last()).push(jobs.last()) =~= pool.queue + jobs);
    }
}

/// Jobs that are submitted to a new pool, however many to however few
/// workers, are all handed out, each once and in the order of submission,
/// by the time that workers have asked as often as there are jobs,
/// whichever workers ask.
pub proof fn lemma_submitted_jobs_run_once<T>(size: nat, jobs: Seq<T>, asks: Seq<int>)
    requires
        asks.len() == jobs.len(),
        forall|i: int| 0 <= i < asks.len() ==> 0 <= #[trigger] asks[i] < size,
    ensures
        accepted(created::<T>(size), submissions(jobs) + requests(asks)) == jobs,
        started(created::<T>(size), submissions(jobs) + requests(asks)) == jobs,
        run(created::<T>(size), submissions(jobs) + requests(asks)).queue.len() == 0,
{
    let pool = created::<T>(size);
    lemma_submissions_are_queued(pool, jobs);
    lemma_queue_drains(run(pool, submissions(jobs)), asks);
    lemma_run_in_parts(pool, submissions(jobs), requests(asks));
    lemma_jobs_are_conserved(pool, submissions(jobs) + requests(asks));
}

/// Once the queue is closed and empty, every worker that asks is told to
/// stop, and stops.
pub proof fn lemma_closed_pool_stops_workers<T>(pool: PoolView<T>, worker: int)
    requires
        !pool.open,
        pool.queue.len() == 0,
        0 <= worker < pool.workers.len(),
    ensures
        answer(pool, worker) == Dispatch::<T>::Stop,
        asked(pool, worker).workers[worker] == WorkerState::Stopped,
{
}

/// When a shutdown returns, that is once every worker of a new pool has
/// stopped, the queue is closed and empty, every job that was accepted has
/// been handed out, and every one of them has finished.
pub proof fn lemma_shutdown_completes<T>(size: nat, ops: Seq<PoolOp<T>>)
    requires
        size > 0,
        all_stopped(run(created::<T>(size), ops).workers),
    ensures
        !run(created::<T>(size), ops).open,
        run(created::<T>(size), ops).queue.len() == 0,
        started(created::<T>(size), ops) == accepted(created::<T>(size), ops),
        finished(created::<T>(size), ops) == accepted(created::<T>(size), ops).len(),
{
    let pool = created::<T>(size);
    lemma_created_is_sound::<T>(size);
    lemma_jobs_are_conserved(pool, ops);
    lemma_stopped_are_not_busy(run(pool, ops).workers);
}

} // verus!
