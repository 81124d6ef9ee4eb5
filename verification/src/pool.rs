//! The scoped worker-pool protocol: a fixed set of workers pulling from one
//! FIFO job channel, with a two-phase join barrier per scope.
//!
//! This module is the protocol itself, as one deterministic state machine
//! over plain data: which worker acts next (and whether its job fails) is an
//! input, so everything proved here holds for every schedule. A scope opens,
//! jobs are submitted as channel messages, workers dequeue and run them in
//! channel order, and the barrier closes the scope: one join message per
//! worker is enqueued, a worker reaching its join message pauses (it has
//! necessarily drained every job ahead of it), and only when every worker
//! has paused — so no outstanding work remains — are they all resumed. A
//! failed job kills its worker and marks the pool defunct: the join barrier
//! reports the failure, and later scopes or submissions fail fast instead of
//! blocking.

use vstd::prelude::*;

verus! {

/// Why a pool operation could not be carried out.
#[derive(Clone, Copy, Debug, PartialEq, Eq, Structural)]
pub enum PoolError {
    /// Construction was asked for zero workers.
    ZeroWorkers,
    /// The pool was shut down; it accepts no further scopes or jobs.
    Defunct,
    /// A job failed; the failure surfaces at the join barrier, and the pool
    /// is defunct from then on.
    WorkerPanicked,
}

/// One message of the shared job channel.
#[derive(Clone, Copy, Debug, PartialEq, Eq, Structural)]
pub enum Msg {
    /// A job submitted in scope generation `gen`, under a tag the pool
    /// assigned at submission.
    Job { gen: u64, job: u64 },
    /// One of the join-barrier messages of generation `gen`.
    Join { gen: u64 },
}

/// What one worker is doing.
#[derive(Clone, Copy, Debug, PartialEq, Eq, Structural)]
pub enum WorkerPhase {
    /// Blocked on the job channel, ready for the next message.
    Polling,
    /// Acknowledged its join message and now awaiting the resume signal.
    Paused,
    /// Died running a job that failed.
    Dead,
}

/// What one call of `worker_step` did.
#[derive(Clone, Copy, Debug, PartialEq, Eq, Structural)]
pub enum StepEvent {
    /// Nothing: the worker is not polling, or the channel is empty.
    Idle,
    /// The worker ran this job to completion.
    Ran { job: u64 },
    /// The worker died running this job; the pool is defunct.
    Panicked { job: u64 },
    /// The worker reached a join message of this generation and paused.
    PausedAt { gen: u64 },
}

/// The generation of a message.
pub open spec fn msg_gen(m: Msg) -> u64 {
    match m {
        Msg::Job { gen, .. } => gen,
        Msg::Join { gen } => gen,
    }
}

/// The `(generation, job)` entries of the job messages of `q`, in channel
/// order.
pub open spec fn job_entries(q: Seq<Msg>) -> Seq<(u64, u64)>
    decreases q.len(),
{
    if q.len() == 0 {
        Seq::empty()
    } else {
        match q[0] {
            Msg::Job { gen, job } => seq![(gen, job)] + job_entries(q.skip(1)),
            Msg::Join { .. } => job_entries(q.skip(1)),
        }
    }
}

/// How many join messages `q` holds.
pub open spec fn join_count(q: Seq<Msg>) -> nat
    decreases q.len(),
{
    if q.len() == 0 {
        0
    } else {
        (if q[0] is Join {
            1nat
        } else {
            0nat
        }) + join_count(q.skip(1))
    }
}

/// Join messages only ever stand behind every job message: once a join
/// message appears, everything after it is a join message too.
pub open spec fn joins_at_back(q: Seq<Msg>) -> bool {
    forall|i: int, j: int| 0 <= i < j < q.len() && (#[trigger] q[i]) is Join ==> (#[trigger] q[j]) is Join
}

/// Every message of `q` belongs to generation `gen`.
pub open spec fn msgs_of_gen(q: Seq<Msg>, gen: u64) -> bool {
    forall|i: int| 0 <= i < q.len() ==> msg_gen(#[trigger] q[i]) == gen
}

/// How many workers are paused at the barrier.
pub open spec fn paused_count(ws: Seq<WorkerPhase>) -> nat
    decreases ws.len(),
{
    if ws.len() == 0 {
        0
    } else {
        paused_count(ws.drop_last()) + (if ws.last() is Paused {
            1nat
        } else {
            0nat
        })
    }
}

/// No worker has died.
pub open spec fn none_dead(ws: Seq<WorkerPhase>) -> bool {
    forall|i: int| 0 <= i < ws.len() ==> !((#[trigger] ws[i]) is Dead)
}

/// Every worker has reached the barrier (paused) or died: none still polls.
pub open spec fn settled_spec(ws: Seq<WorkerPhase>) -> bool {
    forall|i: int| 0 <= i < ws.len() ==> !((#[trigger] ws[i]) is Polling)
}

/// The log entries are ordered by generation.
pub open spec fn gens_sorted(s: Seq<(u64, u64)>) -> bool {
    forall|i: int, j: int| 0 <= i <= j < s.len() ==> (#[trigger] s[i]).0 <= (#[trigger] s[j]).0
}

/// No log entry is of a later generation than `gen`.
pub open spec fn gens_bounded(s: Seq<(u64, u64)>, gen: u64) -> bool {
    forall|i: int| 0 <= i < s.len() ==> (#[trigger] s[i]).0 <= gen
}

proof fn lemma_job_entries_push(q: Seq<Msg>, m: Msg)
    ensures
        job_entries(q.push(m)) == job_entries(q) + (match m {
            Msg::Job { gen, job } => seq![(gen, job)],
            Msg::Join { .. } => Seq::empty(),
        }),
    decreases q.len(),
{
    reveal_with_fuel(job_entries, 3);
    if q.len() == 0 {
        assert(q.push(m).skip(1) =~= Seq::<Msg>::empty());
        assert(q.push(m)[0] == m);
        assert(job_entries(Seq::<Msg>::empty()) == Seq::<(u64, u64)>::empty());
        match m {
            Msg::Job { gen, job } => {
                assert(job_entries(q.push(m)) =~= seq![(gen, job)]);
                assert(job_entries(q) + seq![(gen, job)] =~= seq![(gen, job)]);
            },
            Msg::Join { .. } => {
                assert(job_entries(q) + Seq::<(u64, u64)>::empty() =~= job_entries(q));
            },
        }
    } else {
        assert(q.push(m).skip(1) =~= q.skip(1).push(m));
        assert(q.push(m)[0] == q[0]);
        lemma_job_entries_push(q.skip(1), m);
        match q[0] {
            Msg::Job { gen, job } => {
                assert(job_entries(q.push(m)) == seq![(gen, job)] + job_entries(q.skip(1).push(m)));
                assert(seq![(gen, job)] + (job_entries(q.skip(1)) + (match m {
                    Msg::Job { gen: g2, job: j2 } => seq![(g2, j2)],
                    Msg::Join { .. } => Seq::<(u64, u64)>::empty(),
                })) =~= (seq![(gen, job)] + job_entries(q.skip(1))) + (match m {
                    Msg::Job { gen: g2, job: j2 } => seq![(g2, j2)],
                    Msg::Join { .. } => Seq::<(u64, u64)>::empty(),
                }));
            },
            Msg::Join { .. } => {},
        }
    }
}

proof fn lemma_join_count_push(q: Seq<Msg>, m: Msg)
    ensures
        join_count(q.push(m)) == join_count(q) + (if m is Join {
            1nat
        } else {
            0nat
        }),
    decreases q.len(),
{
    if q.len() == 0 {
        assert(q.push(m).skip(1) =~= Seq::empty());
        assert(q.push(m)[0] == m);
        assert(join_count(q.push(m).skip(1)) == 0);
        assert(join_count(q) == 0);
    } else {
        assert(q.push(m).skip(1) =~= q.skip(1).push(m));
        assert(q.push(m)[0] == q[0]);
        lemma_join_count_push(q.skip(1), m);
        assert(join_count(q.push(m)) == (if q.push(m)[0] is Join {
            1nat
        } else {
            0nat
        }) + join_count(q.push(m).skip(1)));
        assert(join_count(q) == (if q[0] is Join {
            1nat
        } else {
            0nat
        }) + join_count(q.skip(1)));
    }
}

proof fn lemma_join_count_zero(q: Seq<Msg>)
    requires
        join_count(q) == 0,
    ensures
        forall|i: int| 0 <= i < q.len() ==> !((#[trigger] q[i]) is Join),
    decreases q.len(),
{
    if q.len() > 0 {
        lemma_join_count_zero(q.skip(1));
        assert forall|i: int| 0 <= i < q.len() implies !((#[trigger] q[i]) is Join) by {
            if i > 0 {
                assert(q[i] == q.skip(1)[i - 1]);
            }
        }
    }
}

proof fn lemma_paused_count_update(ws: Seq<WorkerPhase>, i: int, v: WorkerPhase)
    requires
        0 <= i < ws.len(),
    ensures
        paused_count(ws.update(i, v)) == paused_count(ws) - (if ws[i] is Paused {
            1int
        } else {
            0int
        }) + (if v is Paused {
            1int
        } else {
            0int
        }),
    decreases ws.len(),
{
    if i == ws.len() - 1 {
        assert(ws.update(i, v).drop_last() =~= ws.drop_last());
        assert(ws.update(i, v).last() == v);
    } else {
        assert(ws.update(i, v).drop_last() =~= ws.drop_last().update(i, v));
        assert(ws.update(i, v).last() == ws.last());
        lemma_paused_count_update(ws.drop_last(), i, v);
    }
}

proof fn lemma_paused_count_none(ws: Seq<WorkerPhase>)

    requires
        forall|i: int| 0 <= i < ws.len() ==> !((#[trigger] ws[i]) is Paused),
    ensures
        paused_count(ws) == 0,
    decreases ws.len(),
{
    if ws.len() > 0 {
        lemma_paused_count_none(ws.drop_last());
    }
}

proof fn lemma_paused_count_all(ws: Seq<WorkerPhase>)
    requires
        forall|i: int| 0 <= i < ws.len() ==> (#[trigger] ws[i]) is Paused,
    ensures
        paused_count(ws) == ws.len(),
    decreases ws.len(),
{
    if ws.len() > 0 {
        lemma_paused_count_all(ws.drop_last());
    }
}

proof fn lemma_paused_count_lt(ws: Seq<WorkerPhase>, w: int)
    requires
        0 <= w < ws.len(),
        !(ws[w] is Paused),
    ensures
        paused_count(ws) < ws.len(),
    decreases ws.len(),
{
    if w == ws.len() - 1 {
        lemma_paused_count_le(ws.drop_last());
    } else {
        lemma_paused_count_lt(ws.drop_last(), w);
    }
}

proof fn lemma_paused_count_le(ws: Seq<WorkerPhase>)
    ensures
        paused_count(ws) <= ws.len(),
    decreases ws.len(),
{
    if ws.len() > 0 {
        lemma_paused_count_le(ws.drop_last());
    }
}

/// A handle to the one scope of the generation it names: proof that the
/// caller opened that scope and has not yet joined it.
#[derive(Debug)]
pub struct Scope {
    pub gen: u64,
}

/// The worker pool: the shared channel, the workers' phases, the barrier
/// bookkeeping, and the full submission and completion logs.
pub struct Pool {
    /// How many workers the pool was built with; fixed for its lifetime.
    pub n_workers: usize,
    /// The shared FIFO job channel; the front is dequeued next.
    pub queue: Vec<Msg>,
    /// Each worker's phase.
    pub workers: Vec<WorkerPhase>,
    /// The current scope generation; grows by one per scope.
    pub gen: u64,
    /// A scope is open and has not finished its join barrier.
    pub scope_open: bool,
    /// The open scope has begun its join barrier.
    pub joining: bool,
    /// A job failed; the pool no longer accepts work.
    pub panicked: bool,
    /// The pool was torn down; it no longer accepts work.
    pub shut_down: bool,
    /// The tag the next submitted job will get.
    pub next_job: u64,
    /// Every `(generation, job)` ever submitted, in submission order.
    pub submitted: Vec<(u64, u64)>,
    /// Every `(generation, job)` run to completion, in completion order.
    pub completed: Vec<(u64, u64)>,
}

impl Pool {
    /// The pool accepts no further work: a job failed or it was shut down.
    pub open spec fn defunct(self) -> bool {
        self.panicked || self.shut_down
    }

    /// The protocol invariant. The heart of it: the completion log followed
    /// by the jobs still in the channel is exactly the submission log, and
    /// while the barrier is up, the channel holds one join message for every
    /// worker not yet paused, all of them behind every job.
    pub open spec fn inv(self) -> bool {
        &&& self.workers@.len() == self.n_workers
        &&& self.n_workers >= 1
        &&& self.joining ==> self.scope_open
        &&& !self.defunct() ==> {
            &&& none_dead(self.workers@)
            &&& self.completed@ + job_entries(self.queue@) == self.submitted@
            &&& msgs_of_gen(self.queue@, self.gen)
            &&& gens_sorted(self.submitted@)
            &&& gens_bounded(self.submitted@, self.gen)
            &&& !self.joining ==> join_count(self.queue@) == 0 && paused_count(self.workers@) == 0
            &&& self.joining ==> {
                &&& joins_at_back(self.queue@)
                &&& join_count(self.queue@) + paused_count(self.workers@) == self.n_workers
                &&& join_count(self.queue@) == 0 ==> self.queue@.len() == 0
            }
            &&& !self.scope_open ==> self.queue@.len() == 0
        }
    }

    /// Builds a pool of `n` workers, all polling an empty channel. Zero
    /// workers are rejected; nothing else fails.
    pub fn new(n: usize) -> (r: Result<Pool, PoolError>)
        ensures
            n == 0 <==> r is Err,
            r is Err ==> r == Err::<Pool, PoolError>(PoolError::ZeroWorkers),
            r is Ok ==> {
                let p = r.unwrap();
                &&& p.inv()
                &&& p.n_workers == n
                &&& !p.defunct()
                &&& !p.scope_open
                &&& !p.joining
                &&& p.gen == 0
                &&& p.queue@.len() == 0
                &&& p.submitted@.len() == 0
                &&& p.completed@.len() == 0
            },
    {
        if n == 0 {
            return Err(PoolError::ZeroWorkers);
        }
        let mut workers: Vec<WorkerPhase> = Vec::new();
        let mut i: usize = 0;
        while i < n
            invariant
                i <= n,
                workers@.len() == i,
                forall|j: int| 0 <= j < i ==> (#[trigger] workers@[j]) is Polling,
            decreases n - i,
        {
            workers.push(WorkerPhase::Polling);
            i = i + 1;
        }
        let pool = Pool {
            n_workers: n,
            queue: Vec::new(),
            workers,
            gen: 0,
            scope_open: false,
            joining: false,
            panicked: false,
            shut_down: false,
            next_job: 0,
            submitted: Vec::new(),
            completed: Vec::new(),
        };
        proof {
            lemma_paused_count_none(pool.workers@);
            assert(pool.completed@ + job_entries(pool.queue@) =~= pool.submitted@);
        }
        Ok(pool)
    }

    /// The number of workers the pool was built with.
    pub fn thread_count(&self) -> (r: usize)
        ensures
            r == self.n_workers,
    {
        self.n_workers
    }

    /// Opens the next scope. On a defunct pool this fails fast instead of
    /// blocking; otherwise it hands back the scope of the next generation.
    pub fn open_scope(&mut self) -> (r: Result<Scope, PoolError>)
        requires
            old(self).inv(),
            !old(self).scope_open,
            old(self).gen < u64::MAX,
        ensures
            final(self).inv(),
            old(self).defunct() ==> *final(self) == *old(self) && r == Err::<Scope, PoolError>(
                if old(self).panicked {
                    PoolError::WorkerPanicked
                } else {
                    PoolError::Defunct
                },
            ),
            !old(self).defunct() ==> r is Ok && r.unwrap().gen == old(self).gen + 1 && *final(self)
                == (Pool { gen: (old(self).gen + 1) as u64, scope_open: true, ..*old(self) }),
    {
        if self.panicked {
            return Err(PoolError::WorkerPanicked);
        }
        if self.shut_down {
            return Err(PoolError::Defunct);
        }
        self.gen = self.gen + 1;
        self.scope_open = true;
        Ok(Scope { gen: self.gen })
    }

    /// Submits one job inside the open scope: a fire-and-forget push onto
    /// the shared channel, under a fresh tag, which is returned. On a
    /// defunct pool this fails fast and changes nothing.
    pub fn execute(&mut self, scope: &Scope) -> (r: Result<u64, PoolError>)
        requires
            old(self).inv(),
            old(self).scope_open,
            !old(self).joining,
            scope.gen == old(self).gen,
            old(self).next_job < u64::MAX,
        ensures
            final(self).inv(),
            old(self).defunct() ==> *final(self) == *old(self) && r == Err::<u64, PoolError>(
                if old(self).panicked {
                    PoolError::WorkerPanicked
                } else {
                    PoolError::Defunct
                },
            ),
            !old(self).defunct() ==> r == Ok::<u64, PoolError>(old(self).next_job) && *final(self)
                == (Pool {
                queue: final(self).queue,
                next_job: (old(self).next_job + 1) as u64,
                submitted: final(self).submitted,
                ..*old(self)
            }) && final(self).queue@ == old(self).queue@.push(
                Msg::Job { gen: old(self).gen, job: old(self).next_job },
            ) && final(self).submitted@ == old(self).submitted@.push(
                (old(self).gen, old(self).next_job),
            ),
    {
        if self.panicked {
            return Err(PoolError::WorkerPanicked);
        }
        if self.shut_down {
            return Err(PoolError::Defunct);
        }
        let job = self.next_job;
        let m = Msg::Job { gen: self.gen, job };
        proof {
            lemma_job_entries_push(self.queue@, m);
            lemma_join_count_push(self.queue@, m);
        }
        self.queue.push(m);
        self.submitted.push((self.gen, job));
        self.next_job = self.next_job + 1;
        proof {
            assert(self.completed@ + job_entries(self.queue@) =~= self.submitted@);
        }
        Ok(job)
    }

    /// Raises the join barrier of the open scope: one join message per
    /// worker is pushed behind everything already in the channel. On a
    /// defunct pool this fails fast and changes nothing.
    pub fn begin_join(&mut self, scope: &Scope) -> (r: Result<(), PoolError>)
        requires
            old(self).inv(),
            old(self).scope_open,
            !old(self).joining,
            scope.gen == old(self).gen,
        ensures
            final(self).inv(),
            old(self).defunct() ==> *final(self) == *old(self) && r == Err::<(), PoolError>(
                if old(self).panicked {
                    PoolError::WorkerPanicked
                } else {
                    PoolError::Defunct
                },
            ),
            !old(self).defunct() ==> r is Ok && *final(self) == (Pool {
                queue: final(self).queue,
                joining: true,
                ..*old(self)
            }) && job_entries(final(self).queue@) == job_entries(old(self).queue@)
                && final(self).joining,
    {
        if self.panicked {
            return Err(PoolError::WorkerPanicked);
        }
        if self.shut_down {
            return Err(PoolError::Defunct);
        }
        proof {
            lemma_join_count_zero(self.queue@);
        }
        let n = self.n_workers;
        let mut k: usize = 0;
        while k < n
            invariant
                k <= n,
                n == self.n_workers,
                self.workers@.len() == self.n_workers,
                self.n_workers >= 1,
                none_dead(self.workers@),
                paused_count(self.workers@) == 0,
                self.completed@ + job_entries(self.queue@) == self.submitted@,
                gens_sorted(self.submitted@),
                gens_bounded(self.submitted@, self.gen),
                !self.defunct(),
                self.scope_open,
                !self.joining,
                self.gen == old(self).gen,
                join_count(self.queue@) == k,
                job_entries(self.queue@) == job_entries(old(self).queue@),
                msgs_of_gen(self.queue@, self.gen),
                forall|i: int, j: int|
                    0 <= i < j < self.queue@.len() && (#[trigger] self.queue@[i]) is Join ==> (
                    #[trigger] self.queue@[j]) is Join,
                self.workers == old(self).workers,
                self.submitted == old(self).submitted,
                self.completed == old(self).completed,
                self.n_workers == old(self).n_workers,
                self.next_job == old(self).next_job,
                self.panicked == old(self).panicked,
                self.shut_down == old(self).shut_down,
                self.scope_open == old(self).scope_open,
            decreases n - k,
        {
            let m = Msg::Join { gen: self.gen };
            proof {
                lemma_job_entries_push(self.queue@, m);
                lemma_join_count_push(self.queue@, m);
            }
            let ghost prev = self.queue@;
            self.queue.push(m);
            proof {
                assert(self.completed@ + job_entries(self.queue@) =~= self.submitted@);
                assert forall|i: int, j: int|
                    0 <= i < j < self.queue@.len() && (#[trigger] self.queue@[i]) is Join implies (
                #[trigger] self.queue@[j]) is Join by {
                    if j < prev.len() {
                        assert(self.queue@[i] == prev[i] && self.queue@[j] == prev[j]);
                    }
                }
                assert forall|i: int|
                    0 <= i < self.queue@.len() implies msg_gen(#[trigger] self.queue@[i])
                    == self.gen by {
                    if i < prev.len() {
                        assert(self.queue@[i] == prev[i]);
                    } else {
                        assert(self.queue@[i] == m);
                    }
                }
            }
            k = k + 1;
        }
        self.joining = true;
        Ok(())
    }

    /// Lets worker `w` take one step: dequeue the channel front and either
    /// run the job (`fails` says whether it fails), or pause at a join
    /// message. With `w` an input, everything proved downstream holds for
    /// every schedule.
    pub fn worker_step(&mut self, w: usize, fails: bool) -> (ev: StepEvent)
        requires
            old(self).inv(),
            w < old(self).n_workers,
        ensures
            final(self).inv(),
            final(self).n_workers == old(self).n_workers,
            final(self).gen == old(self).gen,
            final(self).scope_open == old(self).scope_open,
            final(self).joining == old(self).joining,
            final(self).shut_down == old(self).shut_down,
            final(self).next_job == old(self).next_job,
            final(self).submitted@ == old(self).submitted@,
            !(old(self).workers@[w as int] is Polling) || old(self).queue@.len() == 0 ==> ev
                == StepEvent::Idle && *final(self) == *old(self),
            old(self).workers@[w as int] is Polling && old(self).queue@.len() > 0 ==> {
                &&& final(self).queue@ == old(self).queue@.skip(1)
                &&& match old(self).queue@[0] {
                    Msg::Job { gen, job } => {
                        if fails {
                            &&& ev == (StepEvent::Panicked { job })
                            &&& final(self).panicked
                            &&& final(self).workers@ == old(self).workers@.update(
                                w as int,
                                WorkerPhase::Dead,
                            )
                            &&& final(self).completed@ == old(self).completed@
                        } else {
                            &&& ev == (StepEvent::Ran { job })
                            &&& final(self).panicked == old(self).panicked
                            &&& final(self).workers@ == old(self).workers@
                            &&& final(self).completed@ == old(self).completed@.push((gen, job))
                        }
                    },
                    Msg::Join { gen } => {
                        &&& ev == (StepEvent::PausedAt { gen })
                        &&& final(self).panicked == old(self).panicked
                        &&& final(self).workers@ == old(self).workers@.update(
                            w as int,
                            WorkerPhase::Paused,
                        )
                        &&& final(self).completed@ == old(self).completed@
                    },
                }
            },
    {
        let polling = match self.workers[w] {
            WorkerPhase::Polling => true,
            _ => false,
        };
        if !polling || self.queue.len() == 0 {
            return StepEvent::Idle;
        }
        let ghost q0 = self.queue@;
        let m = self.queue.remove(0);
        proof {
            assert(self.queue@ =~= q0.skip(1));
        }
        match m {
            Msg::Job { gen, job } => {
                if fails {
                    self.workers.set(w, WorkerPhase::Dead);
                    self.panicked = true;
                    StepEvent::Panicked { job }
                } else {
                    self.completed.push((gen, job));
                    proof {
                        if !self.defunct() {
                            assert(job_entries(q0) == seq![(gen, job)] + job_entries(q0.skip(1)));
                            assert(self.completed@ + job_entries(self.queue@) =~= self.submitted@);
                        }
                    }
                    StepEvent::Ran { job }
                }
            },
            Msg::Join { gen } => {
                self.workers.set(w, WorkerPhase::Paused);
                proof {
                    if !self.defunct() {
                        assert(job_entries(q0) == job_entries(q0.skip(1)));
                        lemma_paused_count_update(
                            old(self).workers@,
                            w as int,
                            WorkerPhase::Paused,
                        );
                        assert forall|i: int|
                            0 <= i < self.queue@.len() implies ((#[trigger] self.queue@[i]) is Join) by {
                            assert(self.queue@[i] == q0[i + 1]);
                            assert(q0[0] is Join);
                        }
                        if join_count(self.queue@) == 0 {
                            lemma_join_count_zero(self.queue@);
                            if self.queue@.len() > 0 {
                                assert(self.queue@[0] is Join);
                            }
                        }
                    }
                }
                StepEvent::PausedAt { gen }
            },
        }
    }

    /// True when no worker still polls: each one has paused at the barrier
    /// or died. Only then may the barrier be taken down.
    pub fn all_settled(&self) -> (r: bool)
        ensures
            r == settled_spec(self.workers@),
    {
        let n = self.workers.len();
        let mut i: usize = 0;
        while i < n
            invariant
                i <= n,
                n == self.workers@.len(),
                forall|j: int| 0 <= j < i ==> !((#[trigger] self.workers@[j]) is Polling),
            decreases n - i,
        {
            let polling = match self.workers[i] {
                WorkerPhase::Polling => true,
                _ => false,
            };
            if polling {
                return false;
            }
            i = i + 1;
        }
        true
    }

    /// Takes the barrier down once every worker has settled. If every
    /// worker paused, every job of the log has necessarily completed — the
    /// join-completeness guarantee — and the workers resume polling; the
    /// scope stays open and may submit further jobs. If a job failed, the
    /// failure is reported here and the pool stays defunct.
    pub fn finish_join(&mut self, scope: &Scope) -> (r: Result<(), PoolError>)
        requires
            old(self).inv(),
            old(self).joining,
            scope.gen == old(self).gen,
            settled_spec(old(self).workers@),
        ensures
            final(self).inv(),
            final(self).scope_open == old(self).scope_open,
            !final(self).joining,
            final(self).gen == old(self).gen,
            final(self).n_workers == old(self).n_workers,
            final(self).submitted@ == old(self).submitted@,
            final(self).completed@ == old(self).completed@,
            final(self).defunct() == old(self).defunct(),
            !old(self).defunct() ==> r is Ok && final(self).completed@ == old(self).submitted@
                && final(self).queue@.len() == 0 && !final(self).defunct(),
            old(self).defunct() ==> r == Err::<(), PoolError>(
                if old(self).panicked {
                    PoolError::WorkerPanicked
                } else {
                    PoolError::Defunct
                },
            ),
    {
        self.joining = false;
        if self.panicked {
            return Err(PoolError::WorkerPanicked);
        }
        if self.shut_down {
            return Err(PoolError::Defunct);
        }
        proof {
            assert forall|i: int|
                0 <= i < self.workers@.len() implies ((#[trigger] self.workers@[i]) is Paused) by {
                assert(!(self.workers@[i] is Polling));
                assert(!(self.workers@[i] is Dead));
            }
            lemma_paused_count_all(self.workers@);
            assert(join_count(self.queue@) == 0);
            assert(self.queue@.len() == 0);
            assert(job_entries(self.queue@) =~= Seq::empty());
            assert(self.completed@ =~= self.submitted@);
        }
        let n = self.workers.len();
        let mut i: usize = 0;
        while i < n
            invariant
                i <= n,
                n == self.workers@.len(),
                n == self.n_workers,
                self.n_workers == old(self).n_workers,
                self.n_workers >= 1,
                self.gen == old(self).gen,
                self.scope_open == old(self).scope_open,
                !self.joining,
                !self.panicked,
                !self.shut_down,
                self.queue@.len() == 0,
                self.submitted@ == old(self).submitted@,
                self.completed@ == old(self).completed@,
                self.completed@ == self.submitted@,
                gens_sorted(self.submitted@),
                gens_bounded(self.submitted@, self.gen),
                forall|j: int| 0 <= j < i ==> (#[trigger] self.workers@[j]) is Polling,
                forall|j: int| i <= j < n ==> !((#[trigger] self.workers@[j]) is Dead),
            decreases n - i,
        {
            self.workers.set(i, WorkerPhase::Polling);
            i = i + 1;
        }
        proof {
            lemma_paused_count_none(self.workers@);
            assert(job_entries(self.queue@) =~= Seq::empty());
            assert(self.completed@ + job_entries(self.queue@) =~= self.submitted@);
        }
        Ok(())
    }

    /// The index of some worker still polling, for a schedule that must
    /// make progress.
    fn find_polling(&self) -> (w: usize)
        requires
            self.workers@.len() == self.n_workers,
            !settled_spec(self.workers@),
        ensures
            w < self.n_workers,
            self.workers@[w as int] is Polling,
    {
        let n = self.workers.len();
        let mut i: usize = 0;
        while i < n
            invariant
                i <= n,
                n == self.workers@.len(),
                n == self.n_workers,
                exists|j: int| 0 <= j < n && (#[trigger] self.workers@[j]) is Polling,
                forall|j: int| 0 <= j < i ==> !((#[trigger] self.workers@[j]) is Polling),
            decreases n - i,
        {
            let polling = match self.workers[i] {
                WorkerPhase::Polling => true,
                _ => false,
            };
            if polling {
                return i;
            }
            i = i + 1;
        }
        proof {
            assert(false);
        }
        0
    }

    /// Runs the join barrier to completion: the barrier goes up, the
    /// workers drain the channel in order (any still-polling worker may act
    /// next; every job runs), and once all have paused the barrier comes
    /// down and they resume. On return with `Ok`, every job ever submitted
    /// has completed — nothing submitted inside the scope is still
    /// outstanding — and the scope stays open for further submissions. On a
    /// defunct pool it reports the failure instead, without blocking.
    pub fn join_all(&mut self, scope: &Scope) -> (r: Result<(), PoolError>)
        requires
            old(self).inv(),
            old(self).scope_open,
            !old(self).joining,
            scope.gen == old(self).gen,
        ensures
            final(self).inv(),
            final(self).scope_open,
            !final(self).joining,
            final(self).gen == old(self).gen,
            final(self).n_workers == old(self).n_workers,
            final(self).submitted@ == old(self).submitted@,
            final(self).defunct() == old(self).defunct(),
            !old(self).defunct() ==> r is Ok && final(self).completed@ == old(self).submitted@
                && final(self).queue@.len() == 0,
            old(self).defunct() ==> *final(self) == *old(self) && r == Err::<(), PoolError>(
                if old(self).panicked {
                    PoolError::WorkerPanicked
                } else {
                    PoolError::Defunct
                },
            ),
    {
        match self.begin_join(scope) {
            Err(e) => {
                return Err(e);
            },
            Ok(()) => {},
        }
        while !self.all_settled()
            invariant
                self.inv(),
                self.joining,
                self.scope_open,
                !self.panicked,
                !self.shut_down,
                self.gen == old(self).gen,
                self.n_workers == old(self).n_workers,
                self.submitted@ == old(self).submitted@,
            decreases self.queue@.len(),
        {
            let w = self.find_polling();
            proof {
                lemma_paused_count_lt(self.workers@, w as int);
                if self.queue@.len() == 0 {
                    assert(join_count(self.queue@) == 0);
                }
            }
            let _ev = self.worker_step(w, false);
        }
        self.finish_join(scope)
    }

    /// Ends the scope, consuming it: one last join barrier — so nothing the
    /// scope submitted can still be running once the scope value is gone —
    /// and then the pool is free for the next scope.
    pub fn close_scope(&mut self, scope: Scope) -> (r: Result<(), PoolError>)
        requires
            old(self).inv(),
            old(self).scope_open,
            !old(self).joining,
            scope.gen == old(self).gen,
        ensures
            final(self).inv(),
            !final(self).scope_open,
            !final(self).joining,
            final(self).gen == old(self).gen,
            final(self).n_workers == old(self).n_workers,
            final(self).submitted@ == old(self).submitted@,
            final(self).defunct() == old(self).defunct(),
            !old(self).defunct() ==> r is Ok && final(self).completed@ == old(self).submitted@
                && final(self).queue@.len() == 0,
            old(self).defunct() ==> final(self).completed@ == old(self).completed@ && r == Err::<
                (),
                PoolError,
            >(
                if old(self).panicked {
                    PoolError::WorkerPanicked
                } else {
                    PoolError::Defunct
                },
            ),
    {
        let r = self.join_all(&scope);
        self.scope_open = false;
        r
    }

    /// Tears the pool down: every later scope or submission fails fast with
    /// a defunct error instead of blocking.
    pub fn shutdown(&mut self)
        requires
            old(self).inv(),
        ensures
            final(self).inv(),
            *final(self) == (Pool { shut_down: true, ..*old(self) }),
            final(self).defunct(),
    {
        self.shut_down = true;
    }
}

/// Scope sequencing: two scopes never interleave their jobs. The completion
/// log is ordered by scope generation — everything an earlier scope ran
/// stands before everything a later scope ran — because the log is always a
/// prefix of the submission log, which grows generation by generation.
pub proof fn lemma_scope_sequencing(p: Pool)
    requires
        p.inv(),
        !p.defunct(),
    ensures
        gens_sorted(p.completed@),
{
    let s = p.submitted@;
    let c = p.completed@;
    assert(c + job_entries(p.queue@) == s);
    assert forall|i: int, j: int| 0 <= i <= j < c.len() implies (#[trigger] c[i]).0 <= (
    #[trigger] c[j]).0 by {
        assert(c[i] == s[i] && c[j] == s[j]);
    }
}

} // verus!
