//! The job queue that a fixed set of worker threads drains.
//!
//! The queue decides; the threads only carry out what it says. A worker that
//! is idle asks `take` what to do next: run a job, wait for one, or exit once
//! the queue is closed and empty. Jobs leave in the order they came.
use vstd::prelude::*;

verus! {

/// What an idle worker is to do next.
pub enum Step<J> {
    /// Run this job, then report back with `finish`.
    Run(J),
    /// Nothing is queued yet: wait for a submission or for the close.
    Wait,
    /// The queue is closed and drained: leave.
    Exit,
}

/// A first-in first-out queue of jobs shared by `workers` threads, of which
/// `busy` are running a job.
pub struct JobQueue<J> {
    jobs: Vec<J>,
    open: bool,
    workers: usize,
    busy: usize,
}

/// What a queue holds, as mathematical values.
pub struct QueueView<J> {
    pub jobs: Seq<J>,
    pub open: bool,
    pub workers: nat,
    pub busy: nat,
}

impl<J> View for JobQueue<J> {
    type V = QueueView<J>;

    closed spec fn view(&self) -> QueueView<J> {
        QueueView {
            jobs: self.jobs@,
            open: self.open,
            workers: self.workers as nat,
            busy: self.busy as nat,
        }
    }
}

impl<J> QueueView<J> {
    /// No more workers are running jobs than there are workers.
    pub open spec fn wf(self) -> bool {
        self.busy <= self.workers
    }

    /// The queue after a submission: the job joins the back while the queue
    /// is open, and is refused after the close.
    pub open spec fn submit(self, job: J) -> QueueView<J> {
        if self.open {
            QueueView { jobs: self.jobs.push(job), ..self }
        } else {
            self
        }
    }

    /// What an idle worker is told, and the queue after it.
    pub open spec fn take(self) -> (QueueView<J>, Step<J>) {
        if self.jobs.len() > 0 {
            (QueueView { jobs: self.jobs.drop_first(), busy: self.busy + 1, ..self }, Step::Run(self.jobs[0]))
        } else if !self.open {
            (QueueView { workers: (self.workers - 1) as nat, ..self }, Step::Exit)
        } else {
            (self, Step::Wait)
        }
    }

    /// The queue after a worker has finished its job.
    pub open spec fn finish(self) -> QueueView<J> {
        QueueView { busy: (self.busy - 1) as nat, ..self }
    }

    /// The queue after `k` takes in a row, and the jobs they handed out.
    pub open spec fn take_many(self, k: nat) -> (QueueView<J>, Seq<J>)
        decreases k,
    {
        if k == 0 {
            (self, seq![])
        } else {
            let (q, st) = self.take();
            let (r, out) = q.take_many((k - 1) as nat);
            match st {
                Step::Run(j) => (r, seq![j] + out),
                _ => (r, out),
            }
        }
    }

    /// The queue after each of `js` has been submitted, in order.
    pub open spec fn submit_all(self, js: Seq<J>) -> QueueView<J>
        decreases js.len(),
    {
        if js.len() == 0 {
            self
        } else {
            self.submit_all(js.drop_last()).submit(js.last())
        }
    }

    /// The queue after one worker has taken and finished `k` jobs in turn,
    /// and the jobs it ran.
    pub open spec fn serve_many(self, k: nat) -> (QueueView<J>, Seq<J>)
        decreases k,
    {
        if k == 0 {
            (self, seq![])
        } else {
            let (q, st) = self.take();
            match st {
                Step::Run(j) => {
                    let (r, out) = q.finish().serve_many((k - 1) as nat);
                    (r, seq![j] + out)
                },
                _ => (q, seq![]),
            }
        }
    }
}

impl<J> JobQueue<J> {
    /// An open, empty queue for `workers` threads, none of them busy.
    pub fn new(workers: usize) -> (q: JobQueue<J>)
        requires
            workers > 0,
        ensures
            q@ == (QueueView::<J> { jobs: seq![], open: true, workers: workers as nat, busy: 0 }),
            q@.wf(),
    {
        JobQueue { jobs: Vec::new(), open: true, workers, busy: 0 }
    }

    /// Queues a job. After the close the job is handed back unrun.
    pub fn submit(&mut self, job: J) -> (r: Result<(), J>)
        ensures
            final(self)@ == old(self)@.submit(job),
            old(self)@.open ==> r is Ok,
            !old(self)@.open ==> r == Err::<(), J>(job),
    {
        if self.open {
            self.jobs.push(job);
            Ok(())
        } else {
            Err(job)
        }
    }

    /// Tells an idle worker what to do next.
    pub fn take(&mut self) -> (r: Step<J>)
        requires
            old(self)@.wf(),
            old(self)@.busy < old(self)@.workers,
        ensures
            (final(self)@, r) == old(self)@.take(),
            final(self)@.wf(),
    {
        if self.jobs.len() > 0 {
            let job = self.jobs.remove(0);
            self.busy = self.busy + 1;
            Step::Run(job)
        } else if !self.open {
            self.workers = self.workers - 1;
            Step::Exit
        } else {
            Step::Wait
        }
    }

    /// Records that a worker has finished the job it was running.
    pub fn finish(&mut self)
        requires
            old(self)@.busy > 0,
        ensures
            final(self)@ == old(self)@.finish(),
    {
        self.busy = self.busy - 1;
    }

    /// Closes the queue: no job is accepted after this, and workers leave
    /// once the jobs already queued have been handed out.
    pub fn close(&mut self)
        ensures
            final(self)@ == (QueueView { open: false, ..old(self)@ }),
    {
        self.open = false;
    }

    /// Whether a worker may ask `take`: fewer workers are busy than there are.
    pub fn has_idle_worker(&self) -> (r: bool)
        ensures
            r == (self@.busy < self@.workers),
    {
        self.busy < self.workers
    }

    /// Whether any worker is still running a job.
    pub fn is_busy(&self) -> (r: bool)
        ensures
            r == (self@.busy > 0),
    {
        self.busy > 0
    }

    /// Whether every worker has left.
    pub fn all_exited(&self) -> (r: bool)
        ensures
            r == (self@.workers == 0),
    {
        self.workers == 0
    }
}

proof fn lemma_submit_all<J>(q: QueueView<J>, js: Seq<J>)
    requires
        q.open,
    ensures
        q.submit_all(js) == (QueueView { jobs: q.jobs + js, ..q }),
    decreases js.len(),
{
    if js.len() == 0 {
        assert(q.jobs + js =~= q.jobs);
    } else {
        lemma_submit_all(q, js.drop_last());
        assert(q.jobs + js.drop_last() + seq![js.last()] =~= q.jobs + js);
        assert((q.jobs + js.drop_last()).push(js.last()) =~= q.jobs + js);
    }
}

proof fn lemma_take_many<J>(q: QueueView<J>, k: nat)
    requires
        k <= q.jobs.len(),
    ensures
        q.take_many(k) == (
            QueueView { jobs: q.jobs.skip(k as int), busy: q.busy + k, ..q },
            q.jobs.take(k as int),
        ),
    decreases k,
{
    if k == 0 {
        assert(q.jobs.skip(0) =~= q.jobs);
        assert(q.jobs.take(0) =~= seq![]);
    } else {
        let q1 = q.take().0;
        lemma_take_many(q1, (k - 1) as nat);
        assert(q1.jobs.skip(k - 1) =~= q.jobs.skip(k as int));
        assert(seq![q.jobs[0]] + q1.jobs.take(k - 1) =~= q.jobs.take(k as int));
    }
}

proof fn lemma_serve_many<J>(q: QueueView<J>, k: nat)
    requires
        k <= q.jobs.len(),
    ensures
        q.serve_many(k) == (QueueView { jobs: q.jobs.skip(k as int), ..q }, q.jobs.take(k as int)),
    decreases k,
{
    if k == 0 {
        assert(q.jobs.skip(0) =~= q.jobs);
        assert(q.jobs.take(0) =~= seq![]);
    } else {
        let q1 = q.take().0.finish();
        assert(q1 == (QueueView { jobs: q.jobs.drop_first(), ..q }));
        lemma_serve_many(q1, (k - 1) as nat);
        assert(q1.jobs.skip(k - 1) =~= q.jobs.skip(k as int));
        assert(seq![q.jobs[0]] + q1.jobs.take(k - 1) =~= q.jobs.take(k as int));
    }
}

/// Closing a queue loses no job: an idle worker of a closed queue is handed
/// every queued job, in the order of submission, before it is told to exit.
pub proof fn lemma_close_drains<J>(q: QueueView<J>)
    requires
        !q.open,
    ensures
        ({
            let (r, out) = q.serve_many(q.jobs.len());
            &&& out == q.jobs
            &&& r.jobs.len() == 0
            &&& r.busy == q.busy
            &&& r.take().1 is Exit
        }),
{
    lemma_serve_many(q, q.jobs.len());
    assert(q.jobs.take(q.jobs.len() as int) =~= q.jobs);
}

/// A queue for `n` workers that `n + 1` jobs were submitted to starts the
/// first `n` at once, one per worker, without waiting; then no worker is
/// idle, so the last job stays queued until a worker finishes, and it is the
/// next job handed out after that.
pub proof fn lemma_capacity<J>(n: nat, js: Seq<J>)
    requires
        n > 0,
        js.len() == n + 1,
    ensures
        ({
            let q = (QueueView::<J> { jobs: seq![], open: true, workers: n, busy: 0 }).submit_all(js);
            let (r, started) = q.take_many(n);
            &&& started == js.take(n as int)
            &&& r.busy == r.workers
            &&& r.jobs == seq![js[n as int]]
            &&& r.finish().take().1 == Step::Run(js[n as int])
        }),
{
    let q0 = QueueView::<J> { jobs: seq![], open: true, workers: n, busy: 0 };
    lemma_submit_all(q0, js);
    assert(q0.jobs + js =~= js);
    let q = q0.submit_all(js);
    lemma_take_many(q, n);
    assert(js.skip(n as int) =~= seq![js[n as int]]);
}

} // verus!
