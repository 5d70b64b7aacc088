//! A verified model of the fixed-size worker pool.
//!
//! The pool's workers share one FIFO channel. Submitting a job enqueues a
//! job message; shutdown enqueues one terminate message per worker. A worker
//! that receives a job runs it to completion and becomes idle again, so it
//! never terminates with a job in hand; a worker that receives a terminate
//! message terminates. The model keeps a ledger of every job submitted and
//! every job completed, and its invariant ties the two to the channel's
//! contents. The execution contexts themselves live outside the library;
//! every decision they take, and the laws those decisions obey, stand here.
use vstd::prelude::*;

verus! {

/// One message on the shared channel: a job to run, by its identifier, or
/// the signal to terminate.
#[derive(PartialEq, Eq, Structural, Debug, Clone, Copy)]
pub enum Message {
    NewJob(u64),
    Terminate,
}

/// A worker's resting state. While a worker runs a job it is busy in between,
/// but a step of this model carries the job to completion, so a worker is
/// observed either idle or terminated.
#[derive(PartialEq, Eq, Structural, Debug, Clone, Copy)]
pub enum WorkerState {
    Idle,
    Terminated,
}

/// The identifiers of the job messages in `msgs`, in channel order.
pub open spec fn jobs_of(msgs: Seq<Message>) -> Seq<u64>
    decreases msgs.len(),
{
    if msgs.len() == 0 {
        Seq::<u64>::empty()
    } else {
        match msgs[0] {
            Message::NewJob(j) => seq![j] + jobs_of(msgs.drop_first()),
            Message::Terminate => jobs_of(msgs.drop_first()),
        }
    }
}

/// How many terminate messages `msgs` holds.
pub open spec fn terms_of(msgs: Seq<Message>) -> nat
    decreases msgs.len(),
{
    if msgs.len() == 0 {
        0
    } else {
        match msgs[0] {
            Message::NewJob(_) => terms_of(msgs.drop_first()),
            Message::Terminate => 1 + terms_of(msgs.drop_first()),
        }
    }
}

/// Every job message precedes every terminate message.
pub open spec fn jobs_before_terms(msgs: Seq<Message>) -> bool {
    forall|i: int, j: int|
        0 <= i < j < msgs.len() && msgs[i] is Terminate ==> msgs[j] is Terminate
}

/// How many workers have terminated.
pub open spec fn terminated_count(ws: Seq<WorkerState>) -> nat
    decreases ws.len(),
{
    if ws.len() == 0 {
        0
    } else {
        terminated_count(ws.drop_last()) + if ws.last() is Terminated {
            1nat
        } else {
            0nat
        }
    }
}

/// The fixed-size worker pool, modelled by the shared channel, the workers'
/// states, and the ledger of submitted and completed job identifiers.
pub struct ThreadPool {
    pub size: usize,
    pub channel: Vec<Message>,
    pub workers: Vec<WorkerState>,
    pub submitted: Vec<u64>,
    pub completed: Vec<u64>,
    pub shutting_down: bool,
}

impl ThreadPool {
    /// The pool's invariant: the worker set never changes size; the jobs
    /// completed so far followed by the jobs still queued are exactly the
    /// jobs submitted, in order; terminate messages exist only during
    /// shutdown, one per worker not yet terminated, and always behind every
    /// queued job; and once any worker has terminated, no job is left queued.
    pub open spec fn wf(self) -> bool {
        &&& self.size >= 1
        &&& self.workers@.len() == self.size
        &&& self.completed@ + jobs_of(self.channel@) == self.submitted@
        &&& jobs_before_terms(self.channel@)
        &&& !self.shutting_down ==> terms_of(self.channel@) == 0 && terminated_count(
            self.workers@,
        ) == 0
        &&& self.shutting_down ==> terms_of(self.channel@) + terminated_count(self.workers@)
            == self.size
        &&& terminated_count(self.workers@) > 0 ==> jobs_of(self.channel@).len() == 0
    }

    /// Constructs a pool of `size` workers, all idle, with nothing submitted.
    pub fn new(size: usize) -> (r: ThreadPool)
        requires
            size >= 1,
        ensures
            r.wf(),
            r.size == size,
            r.channel@.len() == 0,
            r.submitted@.len() == 0,
            r.completed@.len() == 0,
            !r.shutting_down,
            forall|i: int| 0 <= i < r.workers@.len() ==> r.workers@[i] is Idle,
    {
        let mut workers: Vec<WorkerState> = Vec::new();
        let mut i: usize = 0;
        while i < size
            invariant
                i <= size,
                workers@.len() == i,
                forall|k: int| 0 <= k < i ==> workers@[k] is Idle,
            decreases size - i,
        {
            workers.push(WorkerState::Idle);
            i = i + 1;
        }
        proof {
            lemma_terminated_count_none(workers@);
        }
        ThreadPool {
            size,
            channel: Vec::new(),
            workers,
            submitted: Vec::new(),
            completed: Vec::new(),
            shutting_down: false,
        }
    }

    /// Enqueues one job. Submission is a programming error once shutdown has
    /// begun, so it is excluded here.
    pub fn execute(&mut self, job: u64)
        requires
            old(self).wf(),
            !old(self).shutting_down,
        ensures
            final(self).wf(),
            !final(self).shutting_down,
            final(self).size == old(self).size,
            final(self).workers@ == old(self).workers@,
            final(self).completed@ == old(self).completed@,
            final(self).submitted@ == old(self).submitted@.push(job),
            final(self).channel@ == old(self).channel@.push(Message::NewJob(job)),
    {
        proof {
            lemma_push_message(self.channel@, Message::NewJob(job));
            lemma_terms_zero_no_term(self.channel@);
            assert(self.completed@ + jobs_of(self.channel@.push(Message::NewJob(job)))
                =~= (self.completed@ + jobs_of(self.channel@)).push(job));
        }
        self.channel.push(Message::NewJob(job));
        self.submitted.push(job);
    }

    /// Begins shutdown: enqueues one terminate message per worker, behind
    /// every job already queued.
    pub fn begin_shutdown(&mut self)
        requires
            old(self).wf(),
            !old(self).shutting_down,
        ensures
            final(self).wf(),
            final(self).shutting_down,
            final(self).size == old(self).size,
            final(self).workers@ == old(self).workers@,
            final(self).completed@ == old(self).completed@,
            final(self).submitted@ == old(self).submitted@,
            jobs_of(final(self).channel@) == jobs_of(old(self).channel@),
            terms_of(final(self).channel@) == final(self).size,
    {
        self.shutting_down = true;
        let mut i: usize = 0;
        while i < self.size
            invariant
                i <= self.size,
                self.size == old(self).size,
                self.workers@ == old(self).workers@,
                self.completed@ == old(self).completed@,
                self.submitted@ == old(self).submitted@,
                self.shutting_down,
                old(self).wf(),
                jobs_of(self.channel@) == jobs_of(old(self).channel@),
                terms_of(self.channel@) == i,
                jobs_before_terms(self.channel@),
            decreases self.size - i,
        {
            proof {
                lemma_push_message(self.channel@, Message::Terminate);
            }
            self.channel.push(Message::Terminate);
            i = i + 1;
        }
    }

    /// One step of worker `w`: it takes the message at the front of the
    /// channel; a job message it runs to completion, recording the job and
    /// staying available, and a terminate message ends it. A worker never
    /// terminates while holding a job.
    pub fn step_worker(&mut self, w: usize)
        requires
            old(self).wf(),
            w < old(self).workers@.len(),
            old(self).workers@[w as int] is Idle,
            old(self).channel@.len() > 0,
        ensures
            final(self).wf(),
            final(self).size == old(self).size,
            final(self).submitted@ == old(self).submitted@,
            final(self).shutting_down == old(self).shutting_down,
            final(self).channel@ == old(self).channel@.drop_first(),
            final(self).workers@.len() == old(self).workers@.len(),
            old(self).channel@[0] matches Message::NewJob(j) ==> final(self).completed@ == old(
                self,
            ).completed@.push(j) && final(self).workers@ == old(self).workers@,
            old(self).channel@[0] is Terminate ==> final(self).completed@ == old(self).completed@
                && final(self).workers@ == old(self).workers@.update(
                w as int,
                WorkerState::Terminated,
            ),
    {
        proof {
            if old(self).channel@[0] is Terminate {
                lemma_front_term_no_jobs(self.channel@);
                lemma_terminated_count_update(self.workers@, w as int);
                if !self.shutting_down {
                    lemma_terms_zero_no_term(self.channel@);
                }
            } else {
                if terminated_count(self.workers@) > 0 {
                    assert(jobs_of(self.channel@).len() > 0);
                }
            }
            lemma_drop_first_jobs_before_terms(self.channel@);
        }
        let msg = self.channel.remove(0);
        proof {
            assert(self.channel@ =~= old(self).channel@.drop_first());
        }
        match msg {
            Message::NewJob(j) => {
                proof {
                    assert(self.completed@.push(j) + jobs_of(self.channel@)
                        =~= self.completed@ + jobs_of(old(self).channel@));
                }
                self.completed.push(j);
            },
            Message::Terminate => {
                self.workers[w] = WorkerState::Terminated;
            },
        }
    }

    /// Runs workers until the channel is drained, as the real pool's workers
    /// do: every queued job is completed, so everything submitted has then
    /// run exactly once, and if shutdown had begun, every worker terminates.
    pub fn run_to_completion(&mut self)
        requires
            old(self).wf(),
        ensures
            final(self).wf(),
            final(self).size == old(self).size,
            final(self).submitted@ == old(self).submitted@,
            final(self).shutting_down == old(self).shutting_down,
            final(self).channel@.len() == 0,
            final(self).completed@ == final(self).submitted@,
            old(self).shutting_down ==> forall|i: int|
                0 <= i < final(self).workers@.len() ==> final(self).workers@[i] is Terminated,
    {
        while self.channel.len() > 0
            invariant
                self.wf(),
                self.size == old(self).size,
                self.submitted@ == old(self).submitted@,
                self.shutting_down == old(self).shutting_down,
            decreases self.channel@.len(),
        {
            proof {
                if self.channel@[0] is Terminate {
                    assert(terms_of(self.channel@) > 0);
                    assert(self.shutting_down);
                    assert(terminated_count(self.workers@) < self.size);
                } else {
                    assert(jobs_of(self.channel@).len() > 0);
                    assert(terminated_count(self.workers@) == 0);
                }
                lemma_not_all_terminated(self.workers@);
            }
            let n = self.workers.len();
            let mut w: usize = 0;
            while !is_idle(&self.workers[w])
                invariant
                    n == self.workers@.len(),
                    w < n,
                    forall|k: int| 0 <= k < w ==> !(self.workers@[k] is Idle),
                    exists|k: int| 0 <= k < n && self.workers@[k] is Idle,
                decreases n - w,
            {
                proof {
                    let k = choose|k: int| 0 <= k < n && self.workers@[k] is Idle;
                    assert(k > w);
                }
                w = w + 1;
            }
            self.step_worker(w);
        }
        proof {
            lemma_all_jobs_executed(*self);
            if old(self).shutting_down {
                lemma_terms_len(self.channel@);
                lemma_full_count_all_terminated(self.workers@);
            }
        }
    }
}

/// Whether a worker is at rest and able to take a message.
fn is_idle(w: &WorkerState) -> (r: bool)
    ensures
        r == (w is Idle),
{
    match w {
        WorkerState::Idle => true,
        WorkerState::Terminated => false,
    }
}

/// Law: in a well-formed pool whose channel holds no further job, every job
/// ever submitted has been completed, exactly once each, in submission order.
pub proof fn lemma_all_jobs_executed(p: ThreadPool)
    requires
        p.wf(),
        jobs_of(p.channel@).len() == 0,
    ensures
        p.completed@ == p.submitted@,
{
    assert(p.completed@ + jobs_of(p.channel@) =~= p.completed@);
}

/// Law: in a well-formed pool in which every worker has terminated, the
/// channel is empty and every job ever submitted has been completed,
/// exactly once each, in submission order.
pub proof fn lemma_shutdown_complete(p: ThreadPool)
    requires
        p.wf(),
        forall|i: int| 0 <= i < p.workers@.len() ==> p.workers@[i] is Terminated,
    ensures
        p.channel@.len() == 0,
        p.completed@ == p.submitted@,
{
    lemma_all_terminated_full_count(p.workers@);
    assert(terminated_count(p.workers@) == p.size);
    assert(p.shutting_down) by {
        if !p.shutting_down {
            assert(terminated_count(p.workers@) == 0);
        }
    }
    assert(jobs_of(p.channel@).len() == 0);
    assert(terms_of(p.channel@) == 0);
    lemma_terms_len(p.channel@);
    lemma_all_jobs_executed(p);
}

/// A channel's length is its job messages plus its terminate messages.
proof fn lemma_terms_len(msgs: Seq<Message>)
    ensures
        jobs_of(msgs).len() + terms_of(msgs) == msgs.len(),
    decreases msgs.len(),
{
    if msgs.len() > 0 {
        lemma_terms_len(msgs.drop_first());
    }
}

/// Pushing a message onto the back of a channel extends its jobs or its
/// terminate count accordingly.
proof fn lemma_push_message(msgs: Seq<Message>, m: Message)
    ensures
        m matches Message::NewJob(j) ==> jobs_of(msgs.push(m)) == jobs_of(msgs).push(j),
        m is Terminate ==> jobs_of(msgs.push(m)) == jobs_of(msgs),
        terms_of(msgs.push(m)) == terms_of(msgs) + if m is Terminate {
            1nat
        } else {
            0nat
        },
    decreases msgs.len(),
{
    let pushed = msgs.push(m);
    if msgs.len() == 0 {
        assert(pushed.drop_first() =~= Seq::<Message>::empty());
        assert(pushed[0] == m);
        assert(jobs_of(Seq::<Message>::empty()) == Seq::<u64>::empty());
        assert(terms_of(Seq::<Message>::empty()) == 0);
        match m {
            Message::NewJob(j) => {
                assert(jobs_of(pushed) == seq![j] + jobs_of(pushed.drop_first()));
                assert(jobs_of(pushed) =~= jobs_of(msgs).push(j));
            },
            Message::Terminate => {},
        }
    } else {
        lemma_push_message(msgs.drop_first(), m);
        assert(pushed.drop_first() =~= msgs.drop_first().push(m));
        assert(pushed[0] == msgs[0]);
        match m {
            Message::NewJob(j) => {
                match msgs[0] {
                    Message::NewJob(j0) => {
                        assert(jobs_of(pushed) == seq![j0] + jobs_of(pushed.drop_first()));
                        assert(jobs_of(pushed.drop_first()) == jobs_of(msgs.drop_first()).push(j));
                        assert(jobs_of(msgs) == seq![j0] + jobs_of(msgs.drop_first()));
                        assert(seq![j0] + jobs_of(msgs.drop_first()).push(j)
                            =~= (seq![j0] + jobs_of(msgs.drop_first())).push(j));
                    },
                    Message::Terminate => {
                        assert(jobs_of(pushed) == jobs_of(pushed.drop_first()));
                        assert(jobs_of(msgs) == jobs_of(msgs.drop_first()));
                    },
                }
            },
            Message::Terminate => {},
        }
    }
}

/// A channel with no terminate message has none at any position.
proof fn lemma_terms_zero_no_term(msgs: Seq<Message>)
    requires
        terms_of(msgs) == 0,
    ensures
        forall|i: int| 0 <= i < msgs.len() ==> !(msgs[i] is Terminate),
    decreases msgs.len(),
{
    if msgs.len() > 0 {
        lemma_terms_zero_no_term(msgs.drop_first());
        assert(forall|i: int|
            1 <= i < msgs.len() ==> msgs[i] == msgs.drop_first()[i - 1]);
    }
}

/// If every job message precedes every terminate message and a terminate
/// message stands at the front, no job message is queued at all.
proof fn lemma_front_term_no_jobs(msgs: Seq<Message>)
    requires
        jobs_before_terms(msgs),
        msgs.len() > 0,
        msgs[0] is Terminate,
    ensures
        jobs_of(msgs).len() == 0,
    decreases msgs.len(),
{
    let rest = msgs.drop_first();
    if rest.len() > 0 {
        assert(forall|i: int| 0 <= i < rest.len() ==> rest[i] == msgs[i + 1]);
        assert(rest[0] is Terminate);
        assert(jobs_before_terms(rest));
        lemma_front_term_no_jobs(rest);
    } else {
        assert(jobs_of(rest) == Seq::<u64>::empty());
    }
    assert(jobs_of(msgs) == jobs_of(rest));
}

/// Dropping the front of a channel keeps job messages ahead of terminate
/// messages.
proof fn lemma_drop_first_jobs_before_terms(msgs: Seq<Message>)
    requires
        jobs_before_terms(msgs),
        msgs.len() > 0,
    ensures
        jobs_before_terms(msgs.drop_first()),
{
    let rest = msgs.drop_first();
    assert(forall|i: int| 0 <= i < rest.len() ==> rest[i] == msgs[i + 1]);
}

/// A worker set with no terminated member counts zero terminations.
proof fn lemma_terminated_count_none(ws: Seq<WorkerState>)
    requires
        forall|i: int| 0 <= i < ws.len() ==> ws[i] is Idle,
    ensures
        terminated_count(ws) == 0,
    decreases ws.len(),
{
    if ws.len() > 0 {
        lemma_terminated_count_none(ws.drop_last());
    }
}

/// Terminating one idle worker raises the termination count by one.
proof fn lemma_terminated_count_update(ws: Seq<WorkerState>, i: int)
    requires
        0 <= i < ws.len(),
        ws[i] is Idle,
    ensures
        terminated_count(ws.update(i, WorkerState::Terminated)) == terminated_count(ws) + 1,
    decreases ws.len(),
{
    let updated = ws.update(i, WorkerState::Terminated);
    if i == ws.len() - 1 {
        assert(updated.drop_last() =~= ws.drop_last());
    } else {
        assert(updated.drop_last() =~= ws.drop_last().update(i, WorkerState::Terminated));
        lemma_terminated_count_update(ws.drop_last(), i);
    }
}

/// If every worker has terminated, the count says so.
proof fn lemma_all_terminated_full_count(ws: Seq<WorkerState>)
    requires
        forall|i: int| 0 <= i < ws.len() ==> ws[i] is Terminated,
    ensures
        terminated_count(ws) == ws.len(),
    decreases ws.len(),
{
    if ws.len() > 0 {
        lemma_all_terminated_full_count(ws.drop_last());
    }
}

/// If the count says every worker has terminated, each one has.
proof fn lemma_full_count_all_terminated(ws: Seq<WorkerState>)
    requires
        terminated_count(ws) == ws.len(),
    ensures
        forall|i: int| 0 <= i < ws.len() ==> ws[i] is Terminated,
    decreases ws.len(),
{
    if ws.len() > 0 {
        lemma_terminated_count_bound(ws.drop_last());
        assert(ws.last() is Terminated);
        assert(terminated_count(ws.drop_last()) == ws.drop_last().len());
        lemma_full_count_all_terminated(ws.drop_last());
        assert forall|i: int| 0 <= i < ws.len() implies ws[i] is Terminated by {
            if i < ws.len() - 1 {
                assert(ws[i] == ws.drop_last()[i]);
            }
        }
    }
}

/// If fewer workers have terminated than exist, some worker is idle.
proof fn lemma_not_all_terminated(ws: Seq<WorkerState>)
    requires
        terminated_count(ws) < ws.len(),
    ensures
        exists|i: int| 0 <= i < ws.len() && ws[i] is Idle,
    decreases ws.len(),
{
    if ws.last() is Idle {
        assert(ws[ws.len() - 1] is Idle);
    } else {
        lemma_not_all_terminated(ws.drop_last());
        let i = choose|i: int| 0 <= i < ws.drop_last().len() && ws.drop_last()[i] is Idle;
        assert(ws[i] is Idle);
    }
}

/// The termination count never exceeds the worker count.
proof fn lemma_terminated_count_bound(ws: Seq<WorkerState>)
    ensures
        terminated_count(ws) <= ws.len(),
    decreases ws.len(),
{
    if ws.len() > 0 {
        lemma_terminated_count_bound(ws.drop_last());
    }
}

} // verus!
