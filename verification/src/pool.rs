//! Sharing work out: the queues of a work-stealing pool, groups of tasks that
//! report when the last one has finished, and queues that are drained while
//! they still grow. Threads, locks and wake-ups are the caller's; each operation
//! here is one critical section.

use crate::sorting;
use std::collections::VecDeque;
use vstd::multiset::Multiset;
use vstd::prelude::*;

verus! {

// ---------------------------------------------------------------------------
// The pool's queues
// ---------------------------------------------------------------------------

/// The queues of a pool. Each worker owns one: it takes its own newest job, so
/// that it stays in one subtree, and when it has none the oldest job that came
/// from outside or the oldest one of another worker.
pub struct JobPool<J> {
    injector: VecDeque<J>,
    workers: Vec<VecDeque<J>>,
    idle: usize,
}

#[verifier::ext_equal]
pub struct PoolModel<J> {
    pub injector: Seq<J>,
    pub workers: Seq<Seq<J>>,
    /// How many workers have announced that they go to sleep.
    pub idle: nat,
}

pub open spec fn queues<J>(workers: Seq<VecDeque<J>>) -> Seq<Seq<J>> {
    workers.map_values(|q: VecDeque<J>| q@)
}

impl<J> View for JobPool<J> {
    type V = PoolModel<J>;

    closed spec fn view(&self) -> PoolModel<J> {
        PoolModel {
            injector: self.injector@,
            workers: queues(self.workers@),
            idle: self.idle as nat,
        }
    }
}

/// The worker whose turn it is to be robbed, `offset` places behind the start.
pub open spec fn victim_at(me: Option<usize>, count: nat, offset: nat) -> int {
    match me {
        Some(index) => (index + 1 + offset) % count as int,
        None => (offset as int) % (count as int),
    }
}

/// The first worker from a place on, other than the thief, that has a job.
pub open spec fn victim<J>(workers: Seq<Seq<J>>, me: Option<usize>, offset: nat) -> Option<int>
    decreases workers.len() - offset,
{
    if offset >= workers.len() {
        None
    } else {
        let at = victim_at(me, workers.len(), offset);
        if !(me matches Some(index) && index == at) && workers[at].len() > 0 {
            Some(at)
        } else {
            victim(workers, me, offset + 1)
        }
    }
}

impl<J> PoolModel<J> {
    /// The job that a worker, or a thread from outside, takes next, and what the
    /// queues are then.
    pub open spec fn taken(self, me: Option<usize>) -> (Option<J>, PoolModel<J>) {
        if me matches Some(index) && self.workers[index as int].len() > 0 {
            let own = self.workers[me->0 as int];
            (
                Some(own.last()),
                PoolModel {
                    workers: self.workers.update(me->0 as int, own.drop_last()),
                    ..self
                },
            )
        } else if self.injector.len() > 0 {
            (Some(self.injector[0]), PoolModel { injector: self.injector.skip(1), ..self })
        } else {
            match victim(self.workers, me, 0) {
                Some(at) => (
                    Some(self.workers[at][0]),
                    PoolModel {
                        workers: self.workers.update(at, self.workers[at].skip(1)),
                        ..self
                    },
                ),
                None => (None, self),
            }
        }
    }

    /// The queues after jobs were pushed: a worker keeps its own, others hand
    /// them in.
    pub open spec fn pushed(self, me: Option<usize>, jobs: Seq<J>) -> PoolModel<J> {
        match me {
            Some(index) => PoolModel {
                workers: self.workers.update(index as int, self.workers[index as int] + jobs),
                ..self
            },
            None => PoolModel { injector: self.injector + jobs, ..self },
        }
    }

    /// How many workers to wake for new jobs: one for each, as far as any sleep.
    pub open spec fn woken(self, jobs: nat) -> nat {
        if jobs < self.idle {
            jobs
        } else {
            self.idle
        }
    }

    /// The thread is a worker of this pool or none at all.
    pub open spec fn knows(self, me: Option<usize>) -> bool {
        me matches Some(index) ==> index < self.workers.len()
    }
}

impl<J> JobPool<J> {
    /// A pool with a number of workers and no jobs.
    pub fn new(workers: usize) -> (pool: JobPool<J>)
        ensures
            pool@ == (PoolModel::<J> {
                injector: Seq::empty(),
                workers: Seq::new(workers as nat, |i: int| Seq::<J>::empty()),
                idle: 0,
            }),
    {
        let mut list: Vec<VecDeque<J>> = Vec::new();
        let mut i: usize = 0;
        while i < workers
            invariant
                i <= workers,
                queues(list@) == Seq::new(i as nat, |i: int| Seq::<J>::empty()),
            decreases workers - i,
        {
            let ghost before = list@;
            list.push(VecDeque::new());
            i += 1;
            assert(queues(list@) =~= queues(before).push(Seq::<J>::empty()));
            assert(queues(list@) =~= Seq::new(i as nat, |i: int| Seq::<J>::empty()));
        }
        let pool = JobPool { injector: VecDeque::new(), workers: list, idle: 0 };
        assert(pool@.injector =~= Seq::<J>::empty());
        pool
    }

    fn take_oldest(&mut self, at: usize) -> (job: Option<J>)
        requires
            at < old(self)@.workers.len(),
        ensures
            match job {
                Some(j) => old(self)@.workers[at as int].len() > 0 && j
                    == old(self)@.workers[at as int][0] && final(self)@ == (PoolModel {
                    workers: old(self)@.workers.update(
                        at as int,
                        old(self)@.workers[at as int].skip(1),
                    ),
                    ..old(self)@
                }),
                None => old(self)@.workers[at as int].len() == 0 && final(self)@ == old(self)@,
            },
    {
        let ghost before = self@;
        let job = self.workers[at].pop_front();
        proof {
            let old_queue = before.workers[at as int];
            if old_queue.len() > 0 {
                assert(self.workers@[at as int]@ =~= old_queue.skip(1));
                assert(self@.workers =~= before.workers.update(at as int, old_queue.skip(1)));
            } else {
                assert(self@.workers =~= before.workers);
            }
        }
        job
    }

    fn take_newest(&mut self, at: usize) -> (job: Option<J>)
        requires
            at < old(self)@.workers.len(),
        ensures
            match job {
                Some(j) => old(self)@.workers[at as int].len() > 0 && j
                    == old(self)@.workers[at as int].last() && final(self)@ == (PoolModel {
                    workers: old(self)@.workers.update(
                        at as int,
                        old(self)@.workers[at as int].drop_last(),
                    ),
                    ..old(self)@
                }),
                None => old(self)@.workers[at as int].len() == 0 && final(self)@ == old(self)@,
            },
    {
        let ghost before = self@;
        let job = self.workers[at].pop_back();
        proof {
            let old_queue = before.workers[at as int];
            if old_queue.len() > 0 {
                assert(self.workers@[at as int]@ =~= old_queue.drop_last());
                assert(self@.workers =~= before.workers.update(at as int, old_queue.drop_last()));
            } else {
                assert(self@.workers =~= before.workers);
            }
        }
        job
    }

    /// Takes the next job of a worker, or of a thread that helps out.
    pub fn find_job(&mut self, me: Option<usize>) -> (job: Option<J>)
        requires
            old(self)@.knows(me),
        ensures
            (job, final(self)@) == old(self)@.taken(me),
    {
        let ghost start = self@;
        if let Some(index) = me {
            let job = self.take_newest(index);
            if job.is_some() {
                return job;
            }
        }
        let job = self.injector.pop_front();
        if job.is_some() {
            assert(self@.injector =~= start.injector.skip(1));
            return job;
        }
        assert(self@.injector =~= start.injector);
        let count: usize = self.workers.len();
        let mut offset: usize = 0;
        while offset < count
            invariant
                offset <= count,
                count == self@.workers.len(),
                self@ == start,
                start == old(self)@,
                start.knows(me),
                start.injector.len() == 0,
                me matches Some(index) ==> start.workers[index as int].len() == 0,
                victim(start.workers, me, offset as nat) == victim(start.workers, me, 0),
            decreases count - offset,
        {
            let at: usize = match me {
                Some(index) => {
                    let from: usize = if index + 1 == count {
                        0
                    } else {
                        index + 1
                    };
                    if from < count - offset {
                        from + offset
                    } else {
                        from - (count - offset)
                    }
                },
                None => offset,
            };
            proof {
                place_in_ring(me, count as nat, offset as nat, at as int);
            }
            let mine = match me {
                Some(index) => index == at,
                None => false,
            };
            if !mine {
                let job = self.take_oldest(at);
                if job.is_some() {
                    return job;
                }
            }
            offset += 1;
        }
        None
    }

    /// Adds jobs and says how many workers to wake.
    pub fn push_jobs(&mut self, me: Option<usize>, jobs: VecDeque<J>) -> (wake: usize)
        requires
            old(self)@.knows(me),
        ensures
            final(self)@ == old(self)@.pushed(me, jobs@),
            wake == old(self)@.woken(jobs@.len()),
    {
        let ghost before = self@;
        let ghost all = jobs@;
        let count: usize = jobs.len();
        let mut rest = jobs;
        match me {
            Some(index) => {
                self.workers[index].append(&mut rest);
                assert(self@.workers =~= before.pushed(me, all).workers);
            },
            None => {
                self.injector.append(&mut rest);
            },
        }
        if count < self.idle {
            count
        } else {
            self.idle
        }
    }

    /// A worker that found nothing goes to sleep: it announces itself, then
    /// looks once more. With a job it is awake again.
    pub fn park(&mut self, index: usize) -> (job: Option<J>)
        requires
            old(self)@.knows(Some(index)),
            old(self)@.idle < usize::MAX,
        ensures
            job == old(self)@.taken(Some(index)).0,
            final(self)@ == match job {
                Some(_) => old(self)@.taken(Some(index)).1,
                None => PoolModel { idle: old(self)@.idle + 1, ..old(self)@ },
            },
    {
        self.idle += 1;
        let job = self.find_job(Some(index));
        if job.is_some() {
            self.idle -= 1;
        }
        job
    }

    /// A sleeping worker is awake again.
    pub fn wake(&mut self)
        requires
            old(self)@.idle > 0,
        ensures
            final(self)@ == (PoolModel { idle: (old(self)@.idle - 1) as nat, ..old(self)@ }),
    {
        self.idle -= 1;
    }
}

proof fn place_in_ring(me: Option<usize>, count: nat, offset: nat, at: int)
    requires
        offset < count,
        me matches Some(index) ==> index < count,
        at == match me {
            Some(index) => {
                let from = if index + 1 == count {
                    0
                } else {
                    index + 1
                };
                if from < count - offset {
                    from + offset
                } else {
                    from - (count - offset)
                }
            },
            None => offset as int,
        },
    ensures
        0 <= at < count,
        victim_at(me, count, offset) == at,
{
    match me {
        Some(index) => {
            let sum = index + 1 + offset;
            let c = count as int;
            if sum < count {
                vstd::arithmetic::div_mod::lemma_small_mod(sum as nat, count);
            } else if sum < 2 * count {
                vstd::arithmetic::div_mod::lemma_fundamental_div_mod_converse(sum, c, 1, sum - c);
            } else {
                vstd::arithmetic::div_mod::lemma_fundamental_div_mod_converse(
                    sum,
                    c,
                    2,
                    sum - 2 * c,
                );
            }
        },
        None => {
            vstd::arithmetic::div_mod::lemma_small_mod(offset, count);
        },
    }
}

// ---------------------------------------------------------------------------
// Groups of tasks
// ---------------------------------------------------------------------------

/// A set of tasks, with those that they start in turn, that completes when the
/// last one has finished. It starts with a token, so that it cannot complete
/// while the first tasks are still being started; `arm` gives the token back.
pub struct TaskGroup<J> {
    pending: usize,
    armed: bool,
    finished: bool,
    on_finish: Option<J>,
}

#[verifier::ext_equal]
pub struct GroupModel<J> {
    /// The tasks that have not finished, and the token.
    pub pending: nat,
    pub armed: bool,
    pub finished: bool,
    pub on_finish: Option<J>,
}

impl<J> View for TaskGroup<J> {
    type V = GroupModel<J>;

    closed spec fn view(&self) -> GroupModel<J> {
        GroupModel {
            pending: self.pending as nat,
            armed: self.armed,
            finished: self.finished,
            on_finish: self.on_finish,
        }
    }
}

/// What the end of a task means for its group.
#[derive(Debug)]
pub enum Completion<J> {
    /// Others are still running.
    Pending,
    /// It was the last: those who wait go on, and this job is to be run.
    Complete(Option<J>),
}

/// What a thread that waits for a group does next.
#[derive(Debug)]
pub enum WaitStep<J> {
    Return,
    /// Help out with a job.
    Run(J),
    Sleep,
}

/// A new group.
pub open spec fn new_group<J>(on_finish: Option<J>) -> GroupModel<J> {
    GroupModel { pending: 1, armed: false, finished: false, on_finish }
}

impl<J> GroupModel<J> {
    /// The group has finished exactly when nothing is pending; the token is
    /// pending until it is given back; what is to be run at the end is gone then.
    pub open spec fn is_valid(self) -> bool {
        &&& self.finished == (self.pending == 0)
        &&& !self.armed ==> self.pending > 0
        &&& self.finished ==> self.on_finish is None
    }

    /// The tasks that have not finished.
    pub open spec fn running(self) -> nat {
        if self.armed {
            self.pending
        } else {
            (self.pending - 1) as nat
        }
    }

    /// More tasks were started.
    pub open spec fn with_tasks(self, count: nat) -> GroupModel<J> {
        GroupModel { pending: self.pending + count, ..self }
    }

    /// A task has finished, or the token was given back.
    pub open spec fn released(self) -> GroupModel<J> {
        if self.pending == 1 {
            GroupModel { pending: 0, finished: true, on_finish: None, ..self }
        } else {
            GroupModel { pending: (self.pending - 1) as nat, ..self }
        }
    }

    /// The token was given back.
    pub open spec fn armed_now(self) -> GroupModel<J> {
        GroupModel { armed: true, ..self.released() }
    }

    /// What the release of one more means.
    pub open spec fn completion(self) -> Completion<J> {
        if self.pending == 1 {
            Completion::Complete(self.on_finish)
        } else {
            Completion::Pending
        }
    }
}

impl<J> TaskGroup<J> {
    /// A group that runs nothing at the end.
    pub fn new() -> (group: TaskGroup<J>)
        ensures
            group@ == new_group::<J>(None),
            group@.is_valid(),
    {
        TaskGroup { pending: 1, armed: false, finished: false, on_finish: None }
    }

    /// A group with a job to run at the end.
    pub fn with_finish(on_finish: J) -> (group: TaskGroup<J>)
        ensures
            group@ == new_group(Some(on_finish)),
            group@.is_valid(),
    {
        TaskGroup { pending: 1, armed: false, finished: false, on_finish: Some(on_finish) }
    }

    /// Starts a task: hands its job to the pool and says how many workers to
    /// wake. Only who holds the token or runs a task of the group starts more.
    pub fn spawn(&mut self, pool: &mut JobPool<J>, me: Option<usize>, job: J) -> (wake: usize)
        requires
            old(self)@.is_valid(),
            !old(self)@.finished,
            old(self)@.pending < usize::MAX,
            old(pool)@.knows(me),
        ensures
            final(self)@ == old(self)@.with_tasks(1),
            final(self)@.is_valid(),
            final(pool)@ == old(pool)@.pushed(me, seq![job]),
            wake == old(pool)@.woken(1),
    {
        self.pending += 1;
        let mut jobs: VecDeque<J> = VecDeque::new();
        jobs.push_back(job);
        assert(jobs@ =~= seq![job]);
        pool.push_jobs(me, jobs)
    }

    /// Starts several tasks at once.
    pub fn spawn_all(
        &mut self,
        pool: &mut JobPool<J>,
        me: Option<usize>,
        jobs: VecDeque<J>,
    ) -> (wake: usize)
        requires
            old(self)@.is_valid(),
            !old(self)@.finished,
            old(self)@.pending + jobs@.len() <= usize::MAX,
            old(pool)@.knows(me),
        ensures
            final(self)@ == old(self)@.with_tasks(jobs@.len()),
            final(self)@.is_valid(),
            final(pool)@ == old(pool)@.pushed(me, jobs@),
            wake == old(pool)@.woken(jobs@.len()),
    {
        self.pending += jobs.len();
        pool.push_jobs(me, jobs)
    }

    /// Notes that a task has finished.
    pub fn task_finished(&mut self) -> (r: Completion<J>)
        requires
            old(self)@.is_valid(),
            old(self)@.running() > 0,
        ensures
            final(self)@ == old(self)@.released(),
            final(self)@.is_valid(),
            r == old(self)@.completion(),
    {
        self.release()
    }

    fn release(&mut self) -> (r: Completion<J>)
        requires
            old(self)@.pending > 0,
        ensures
            final(self)@ == old(self)@.released(),
            r == old(self)@.completion(),
    {
        self.pending -= 1;
        if self.pending > 0 {
            return Completion::Pending;
        }
        self.finished = true;
        Completion::Complete(self.on_finish.take())
    }

    /// Gives the token back. To be called once, after the first tasks were
    /// started.
    pub fn arm(&mut self) -> (r: Completion<J>)
        requires
            old(self)@.is_valid(),
            !old(self)@.armed,
        ensures
            final(self)@ == old(self)@.armed_now(),
            final(self)@.is_valid(),
            r == old(self)@.completion(),
    {
        let r = self.release();
        self.armed = true;
        r
    }

    /// What a thread outside the pool that waits for the group does next: it
    /// returns once the group has finished, and helps out until then.
    pub fn wait(&self, pool: &mut JobPool<J>) -> (r: WaitStep<J>)
        ensures
            r == if self@.finished {
                WaitStep::Return
            } else {
                match old(pool)@.taken(None).0 {
                    Some(job) => WaitStep::Run(job),
                    None => WaitStep::Sleep,
                }
            },
            final(pool)@ == if self@.finished {
                old(pool)@
            } else {
                old(pool)@.taken(None).1
            },
    {
        if self.finished {
            return WaitStep::Return;
        }
        match pool.find_job(None) {
            Some(job) => WaitStep::Run(job),
            None => WaitStep::Sleep,
        }
    }
}

// ---------------------------------------------------------------------------
// Queues that grow while they are drained
// ---------------------------------------------------------------------------

/// Items still to be worked on, and how many are being worked on.
pub struct WorkQueue<T> {
    items: Vec<T>,
    active: usize,
}

#[verifier::ext_equal]
pub struct QueueModel<T> {
    pub items: Seq<T>,
    pub active: nat,
}

impl<T> View for WorkQueue<T> {
    type V = QueueModel<T>;

    closed spec fn view(&self) -> QueueModel<T> {
        QueueModel { items: self.items@, active: self.active as nat }
    }
}

/// What a thread that drains a queue does next.
#[derive(Debug)]
pub enum DrainStep<T> {
    Work(T),
    /// Another item may still bring more.
    Wait,
    Stop,
}

impl<T> QueueModel<T> {
    /// What comes next: the newest item; without one it is over once nobody
    /// works any more.
    pub open spec fn next_step(self) -> DrainStep<T> {
        if self.items.len() > 0 {
            DrainStep::Work(self.items.last())
        } else if self.active == 0 {
            DrainStep::Stop
        } else {
            DrainStep::Wait
        }
    }

    pub open spec fn after_next(self) -> QueueModel<T> {
        if self.items.len() > 0 {
            QueueModel { items: self.items.drop_last(), active: self.active + 1 }
        } else {
            self
        }
    }
}

impl<T> WorkQueue<T> {
    pub fn new(seed: Vec<T>) -> (queue: WorkQueue<T>)
        ensures
            queue@ == (QueueModel { items: seed@, active: 0 }),
    {
        WorkQueue { items: seed, active: 0 }
    }

    /// Adds an item. One sleeping thread is to be woken for it.
    pub fn push(&mut self, item: T)
        ensures
            final(self)@ == (QueueModel { items: old(self)@.items.push(item), ..old(self)@ }),
    {
        self.items.push(item);
    }

    /// How many items wait to be worked on.
    pub fn waiting(&self) -> (n: usize)
        ensures
            n == self@.items.len(),
    {
        self.items.len()
    }

    /// What a thread does next.
    pub fn next(&mut self) -> (step: DrainStep<T>)
        requires
            old(self)@.active < usize::MAX,
        ensures
            step == old(self)@.next_step(),
            final(self)@ == old(self)@.after_next(),
    {
        match self.items.pop() {
            Some(item) => {
                self.active += 1;
                DrainStep::Work(item)
            },
            None => {
                assert(self@.items =~= old(self)@.items);
                if self.active == 0 {
                    DrainStep::Stop
                } else {
                    DrainStep::Wait
                }
            },
        }
    }

    /// Notes that an item is done, and says whether all sleeping threads are to
    /// be woken, because it is over.
    pub fn done(&mut self) -> (wake_all: bool)
        requires
            old(self)@.active > 0,
        ensures
            final(self)@ == (QueueModel { active: (old(self)@.active - 1) as nat, ..old(self)@ }),
            wake_all == (final(self)@.next_step() is Stop),
    {
        self.active -= 1;
        self.active == 0 && self.items.len() == 0
    }
}

// ---------------------------------------------------------------------------
// Results in order
// ---------------------------------------------------------------------------

/// A result with the place of the item it was made from.
#[derive(Debug)]
pub struct Numbered<R> {
    pub index: usize,
    pub result: R,
}

impl<R> View for Numbered<R> {
    type V = (usize, R);

    open spec fn view(&self) -> (usize, R) {
        (self.index, self.result)
    }
}

/// By place.
pub struct ByIndex;

impl<R> sorting::Order<(usize, R)> for ByIndex {
    open spec fn before(&self, a: (usize, R), b: (usize, R)) -> bool {
        a.0 < b.0
    }

    proof fn is_order(&self, a: (usize, R), b: (usize, R), c: (usize, R)) {
    }
}

impl<R> sorting::Arranged<Numbered<R>> for ByIndex {
    fn goes_before(&self, a: &Numbered<R>, b: &Numbered<R>) -> (r: bool) {
        a.index < b.index
    }
}

/// The results by place.
pub open spec fn ordered<R>(numbered: Seq<(usize, R)>) -> Seq<R> {
    sorting::arranged(&ByIndex, numbered).map_values(|p: (usize, R)| p.1)
}

/// Puts results that came in any order into that of the items they were made
/// from.
pub fn par_map<R>(numbered: Vec<Numbered<R>>) -> (results: Vec<R>)
    ensures
        results@ == ordered(sorting::views(numbered@)),
{
    let mut sorted = sorting::arrange(&ByIndex, numbered);
    let ghost all = sorting::views(sorted@).map_values(|p: (usize, R)| p.1);
    let ghost count = all.len();
    let mut backwards: Vec<R> = Vec::new();
    while sorted.len() > 0
        invariant
            sorted@.len() + backwards@.len() == count,
            all.len() == count,
            forall|i: int| 0 <= i < sorted@.len() ==> (#[trigger] sorted@[i]).result == all[i],
            forall|i: int|
                0 <= i < backwards@.len() ==> #[trigger] backwards@[i] == all[count - 1 - i],
        decreases sorted@.len(),
    {
        let ghost before = sorted@;
        if let Some(last) = sorted.pop() {
            assert(before[before.len() - 1].result == all[before.len() - 1]);
            backwards.push(last.result);
        }
    }
    let mut results: Vec<R> = Vec::new();
    while backwards.len() > 0
        invariant
            results@.len() + backwards@.len() == count,
            all.len() == count,
            forall|i: int|
                0 <= i < backwards@.len() ==> #[trigger] backwards@[i] == all[count - 1 - i],
            forall|i: int| 0 <= i < results@.len() ==> #[trigger] results@[i] == all[i],
        decreases backwards@.len(),
    {
        let ghost before = backwards@;
        if let Some(next) = backwards.pop() {
            assert(before[before.len() - 1] == all[count - before.len()]);
            results.push(next);
        }
    }
    assert(results@ =~= all);
    results
}

// ---------------------------------------------------------------------------
// Laws
// ---------------------------------------------------------------------------

/// The jobs in the workers' queues.
pub open spec fn worker_jobs<J>(workers: Seq<Seq<J>>) -> Multiset<J>
    decreases workers.len(),
{
    if workers.len() == 0 {
        Multiset::empty()
    } else {
        worker_jobs(workers.drop_last()).add(workers.last().to_multiset())
    }
}

/// All jobs of a pool.
pub open spec fn all_jobs<J>(pool: PoolModel<J>) -> Multiset<J> {
    worker_jobs(pool.workers).add(pool.injector.to_multiset())
}

proof fn worker_jobs_update<J>(workers: Seq<Seq<J>>, at: int, queue: Seq<J>)
    requires
        0 <= at < workers.len(),
    ensures
        forall|job: J|
            (#[trigger] worker_jobs(workers.update(at, queue)).count(job))
                + workers[at].to_multiset().count(job) == worker_jobs(workers).count(job)
                + queue.to_multiset().count(job),
    decreases workers.len(),
{
    let changed = workers.update(at, queue);
    let last = workers.last();
    if at == workers.len() - 1 {
        assert(changed.drop_last() =~= workers.drop_last());
        assert(changed.last() == queue);
    } else {
        assert(changed.drop_last() =~= workers.drop_last().update(at, queue));
        assert(changed.last() == last);
        worker_jobs_update(workers.drop_last(), at, queue);
    }
    assert forall|job: J|
        (#[trigger] worker_jobs(changed).count(job)) + workers[at].to_multiset().count(job)
            == worker_jobs(workers).count(job) + queue.to_multiset().count(job) by {
        assert(worker_jobs(changed).count(job) == worker_jobs(changed.drop_last()).count(job)
            + changed.last().to_multiset().count(job));
        assert(worker_jobs(workers).count(job) == worker_jobs(workers.drop_last()).count(job)
            + last.to_multiset().count(job));
    }
}

proof fn parts_of_queue<J>(queue: Seq<J>)
    requires
        queue.len() > 0,
    ensures
        queue.skip(1).to_multiset().insert(queue[0]) == queue.to_multiset(),
        queue.drop_last().to_multiset().insert(queue.last()) == queue.to_multiset(),
{
    broadcast use vstd::seq_lib::group_to_multiset_ensures;

    assert(queue =~= seq![queue[0]] + queue.skip(1));
    vstd::seq_lib::lemma_multiset_commutative(seq![queue[0]], queue.skip(1));
    assert(seq![queue[0]] =~= Seq::<J>::empty().push(queue[0]));
    assert(queue.skip(1).to_multiset().insert(queue[0]) =~= queue.to_multiset());
    assert(queue =~= queue.drop_last().push(queue.last()));
}

proof fn victim_has_work<J>(workers: Seq<Seq<J>>, me: Option<usize>, offset: nat)
    requires
        me matches Some(index) ==> index < workers.len(),
    ensures
        match victim(workers, me, offset) {
            Some(at) => 0 <= at < workers.len() && workers[at].len() > 0,
            None => true,
        },
    decreases workers.len() - offset,
{
    if offset < workers.len() {
        let count = workers.len() as int;
        let at = victim_at(me, workers.len(), offset);
        assert(0 <= at < count) by {
            match me {
                Some(index) => {
                    vstd::arithmetic::div_mod::lemma_mod_bound(index + 1 + offset, count);
                },
                None => {
                    vstd::arithmetic::div_mod::lemma_mod_bound(offset as int, count);
                },
            }
        }
        victim_has_work(workers, me, offset + 1);
    }
}

/// The turn of every worker comes round.
proof fn turn_comes<J>(workers: Seq<Seq<J>>, me: Option<usize>, at: int) -> (offset: nat)
    requires
        me matches Some(index) ==> index < workers.len(),
        0 <= at < workers.len(),
    ensures
        offset < workers.len(),
        victim_at(me, workers.len(), offset) == at,
{
    let count = workers.len();
    match me {
        Some(index) => {
            let from = if index + 1 == count {
                0
            } else {
                index + 1
            };
            let offset = if at >= from {
                at - from
            } else {
                at + count - from
            };
            place_in_ring(me, count, offset as nat, at);
            offset as nat
        },
        None => {
            place_in_ring(me, count, at as nat, at);
            at as nat
        },
    }
}

proof fn nobody_has_work<J>(workers: Seq<Seq<J>>, me: Option<usize>, offset: nat, later: nat)
    requires
        victim(workers, me, offset) is None,
        offset <= later < workers.len(),
    ensures
        ({
            let at = victim_at(me, workers.len(), later);
            (me matches Some(index) && index == at) || workers[at].len() == 0
        }),
    decreases later - offset,
{
    if offset < later {
        nobody_has_work(workers, me, offset + 1, later);
    }
}

proof fn same_but_one<J>(after: Multiset<J>, before: Multiset<J>, rest: Multiset<J>, job: J)
    requires
        forall|j: J|
            (#[trigger] after.count(j)) + rest.insert(job).count(j) == before.count(j) + rest.count(
                j,
            ),
    ensures
        after.insert(job) == before,
{
    assert forall|j: J| #[trigger] after.insert(job).count(j) == before.count(j) by {
        assert(after.count(j) + rest.insert(job).count(j) == before.count(j) + rest.count(j));
    }
    assert(after.insert(job) =~= before);
}

/// Taking a job takes that one job away and no other.
pub proof fn no_job_is_lost<J>(pool: PoolModel<J>, me: Option<usize>)
    requires
        pool.knows(me),
    ensures
        match pool.taken(me) {
            (Some(job), after) => all_jobs(after).insert(job) == all_jobs(pool),
            (None, after) => after == pool,
        },
{
    let (job, after) = pool.taken(me);
    if me matches Some(index) && pool.workers[index as int].len() > 0 {
        let own = pool.workers[me->0 as int];
        parts_of_queue(own);
        worker_jobs_update(pool.workers, me->0 as int, own.drop_last());
        same_but_one(all_jobs(after), all_jobs(pool), own.drop_last().to_multiset(), own.last());
    } else if pool.injector.len() > 0 {
        parts_of_queue(pool.injector);
        assert(all_jobs(after).insert(pool.injector[0]) =~= all_jobs(pool));
    } else {
        victim_has_work(pool.workers, me, 0);
        if let Some(at) = victim(pool.workers, me, 0) {
            let queue = pool.workers[at];
            parts_of_queue(queue);
            worker_jobs_update(pool.workers, at, queue.skip(1));
            same_but_one(all_jobs(after), all_jobs(pool), queue.skip(1).to_multiset(), queue[0]);
        }
    }
}

/// Pushing jobs adds them and no others.
pub proof fn pushed_jobs_are_kept<J>(pool: PoolModel<J>, me: Option<usize>, jobs: Seq<J>)
    requires
        pool.knows(me),
    ensures
        all_jobs(pool.pushed(me, jobs)) == all_jobs(pool).add(jobs.to_multiset()),
{
    match me {
        Some(index) => {
            let own = pool.workers[index as int];
            worker_jobs_update(pool.workers, index as int, own + jobs);
            vstd::seq_lib::lemma_multiset_commutative(own, jobs);
            let after = pool.pushed(me, jobs);
            assert forall|job: J| #[trigger]
                all_jobs(after).count(job) == all_jobs(pool).add(jobs.to_multiset()).count(job) by {
                assert(worker_jobs(after.workers).count(job) + own.to_multiset().count(job)
                    == worker_jobs(pool.workers).count(job) + (own + jobs).to_multiset().count(job));
            }
            assert(all_jobs(after) =~= all_jobs(pool).add(jobs.to_multiset()));
        },
        None => {
            vstd::seq_lib::lemma_multiset_commutative(pool.injector, jobs);
            assert(all_jobs(pool.pushed(me, jobs)) =~= all_jobs(pool).add(jobs.to_multiset()));
        },
    }
}

/// Where there is a job anywhere, whoever looks for one finds one.
pub proof fn work_is_found<J>(pool: PoolModel<J>, me: Option<usize>)
    requires
        pool.knows(me),
    ensures
        (pool.taken(me).0 is None) == (pool.injector.len() == 0 && forall|i: int|
            0 <= i < pool.workers.len() ==> (#[trigger] pool.workers[i]).len() == 0),
{
    victim_has_work(pool.workers, me, 0);
    if pool.taken(me).0 is None {
        assert forall|i: int| 0 <= i < pool.workers.len() implies (
        #[trigger] pool.workers[i]).len() == 0 by {
            let offset = turn_comes(pool.workers, me, i);
            nobody_has_work(pool.workers, me, 0, offset);
        }
    }
}

/// No wake-up is lost: a worker goes to sleep only when every queue is empty,
/// and is then counted, so that the next jobs wake someone; never more are woken
/// than there are jobs.
pub proof fn sleepers_are_woken<J>(pool: PoolModel<J>, jobs: nat)
    ensures
        pool.idle > 0 && jobs > 0 ==> pool.woken(jobs) > 0,
        pool.woken(jobs) <= jobs,
        pool.woken(jobs) <= pool.idle,
{
}

/// Something that happens to a group.
pub enum GroupEvent {
    Started(nat),
    Finished,
    Armed,
}

/// The event can happen: tasks are started by who holds the token or runs a
/// task, and the token is given back once.
pub open spec fn can_happen<J>(group: GroupModel<J>, event: GroupEvent) -> bool {
    match event {
        GroupEvent::Started(_) => !group.finished,
        GroupEvent::Finished => group.running() > 0,
        GroupEvent::Armed => !group.armed,
    }
}

pub open spec fn group_after<J>(group: GroupModel<J>, event: GroupEvent) -> GroupModel<J> {
    match event {
        GroupEvent::Started(count) => group.with_tasks(count),
        GroupEvent::Finished => group.released(),
        GroupEvent::Armed => group.armed_now(),
    }
}

/// The event completes the group.
pub open spec fn completes<J>(group: GroupModel<J>, event: GroupEvent) -> bool {
    !(event is Started) && group.completion() is Complete
}

/// What has happened to a group since it was made.
pub struct GroupRun<J> {
    pub group: GroupModel<J>,
    /// Every event could happen when it did.
    pub possible: bool,
    pub completions: nat,
    pub started: nat,
    pub ended: nat,
}

pub open spec fn group_run<J>(on_finish: Option<J>, events: Seq<GroupEvent>) -> GroupRun<J>
    decreases events.len(),
{
    if events.len() == 0 {
        GroupRun {
            group: new_group(on_finish),
            possible: true,
            completions: 0,
            started: 0,
            ended: 0,
        }
    } else {
        let run = group_run(on_finish, events.drop_last());
        let event = events.last();
        GroupRun {
            group: group_after(run.group, event),
            possible: run.possible && can_happen(run.group, event),
            completions: run.completions + if completes(run.group, event) {
                1nat
            } else {
                0
            },
            started: run.started + match event {
                GroupEvent::Started(count) => count,
                _ => 0,
            },
            ended: run.ended + if event is Finished {
                1nat
            } else {
                0
            },
        }
    }
}

/// A group completes at most once, and exactly when it has been armed and every
/// task that was started, by whomever, has ended.
pub proof fn group_completes_once<J>(on_finish: Option<J>, events: Seq<GroupEvent>)
    requires
        group_run(on_finish, events).possible,
    ensures
        ({
            let run = group_run(on_finish, events);
            &&& run.group.is_valid()
            &&& run.completions == if run.group.finished {
                1nat
            } else {
                0
            }
            &&& run.group.finished == (run.group.armed && run.started == run.ended)
        }),
    decreases events.len(),
{
    tasks_are_counted(on_finish, events);
    if events.len() > 0 {
        group_completes_once(on_finish, events.drop_last());
    }
}

proof fn tasks_are_counted<J>(on_finish: Option<J>, events: Seq<GroupEvent>)
    requires
        group_run(on_finish, events).possible,
    ensures
        ({
            let run = group_run(on_finish, events);
            &&& run.group.is_valid()
            &&& run.started == run.ended + run.group.running()
        }),
    decreases events.len(),
{
    if events.len() > 0 {
        tasks_are_counted(on_finish, events.drop_last());
    }
}

/// A step that a thread takes while somebody waits for a group, on a pool that
/// other groups use as well.
pub enum PoolStep<J> {
    /// Tasks of the group were started.
    Spawned { me: Option<usize>, jobs: Seq<J> },
    /// Jobs of others were pushed.
    Pushed { me: Option<usize>, jobs: Seq<J> },
    /// A worker, or who waits, took a job: a task of the group or another job.
    Took { me: Option<usize>, own: bool },
    /// A task of the group has ended.
    Ended { job: J },
    /// The token of the group was given back.
    Armed,
}

/// What has happened to a group and its pool since the group was made.
pub struct PoolRun<J> {
    pub pool: PoolModel<J>,
    pub group: GroupModel<J>,
    /// Every step could be taken when it was: tasks are started by who holds the
    /// token or runs a task, and the token is given back once.
    pub possible: bool,
    /// The tasks that were started.
    pub started: Multiset<J>,
    /// Those that wait in the pool.
    pub queued: Multiset<J>,
    /// Those that were taken and run.
    pub running: Multiset<J>,
    /// Those that have ended.
    pub ended: Multiset<J>,
    /// The jobs of others that wait in the pool.
    pub foreign: Multiset<J>,
}

impl<J> PoolRun<J> {
    pub open spec fn after(self, step: PoolStep<J>) -> PoolRun<J> {
        match step {
            PoolStep::Spawned { me, jobs } => PoolRun {
                possible: self.possible && self.pool.knows(me) && (!self.group.armed
                    || self.running.len() > 0),
                pool: self.pool.pushed(me, jobs),
                group: self.group.with_tasks(jobs.len()),
                started: self.started.add(jobs.to_multiset()),
                queued: self.queued.add(jobs.to_multiset()),
                ..self
            },
            PoolStep::Pushed { me, jobs } => PoolRun {
                possible: self.possible && self.pool.knows(me),
                pool: self.pool.pushed(me, jobs),
                foreign: self.foreign.add(jobs.to_multiset()),
                ..self
            },
            PoolStep::Took { me, own } => {
                let (found, pool) = self.pool.taken(me);
                let job = found->0;
                if own {
                    PoolRun {
                        possible: self.possible && self.pool.knows(me) && found is Some
                            && self.queued.count(job) > 0,
                        pool,
                        queued: self.queued.remove(job),
                        running: self.running.insert(job),
                        ..self
                    }
                } else {
                    PoolRun {
                        possible: self.possible && self.pool.knows(me) && found is Some
                            && self.foreign.count(job) > 0,
                        pool,
                        foreign: self.foreign.remove(job),
                        ..self
                    }
                }
            },
            PoolStep::Ended { job } => PoolRun {
                possible: self.possible && self.running.count(job) > 0,
                group: self.group.released(),
                running: self.running.remove(job),
                ended: self.ended.insert(job),
                ..self
            },
            PoolStep::Armed => PoolRun {
                possible: self.possible && !self.group.armed,
                group: self.group.armed_now(),
                ..self
            },
        }
    }

    /// How many steps are left to take with what is there.
    pub open spec fn left(self) -> nat {
        2 * self.queued.len() + self.running.len() + self.foreign.len() + if self.group.armed {
            0nat
        } else {
            1
        }
    }
}

/// A new group on a pool, after some steps.
pub open spec fn pool_run<J>(
    pool: PoolModel<J>,
    on_finish: Option<J>,
    steps: Seq<PoolStep<J>>,
) -> PoolRun<J>
    decreases steps.len(),
{
    if steps.len() == 0 {
        PoolRun {
            pool,
            group: new_group(on_finish),
            possible: true,
            started: Multiset::empty(),
            queued: Multiset::empty(),
            running: Multiset::empty(),
            ended: Multiset::empty(),
            foreign: all_jobs(pool),
        }
    } else {
        pool_run(pool, on_finish, steps.drop_last()).after(steps.last())
    }
}

spec fn keeps_count<J>(run: PoolRun<J>) -> bool {
    &&& all_jobs(run.pool) == run.queued.add(run.foreign)
    &&& run.started == run.queued.add(run.running).add(run.ended)
    &&& run.group.is_valid()
    &&& run.group.running() == run.queued.len() + run.running.len()
}

proof fn every_step_keeps_count<J>(
    pool: PoolModel<J>,
    on_finish: Option<J>,
    steps: Seq<PoolStep<J>>,
)
    requires
        pool_run(pool, on_finish, steps).possible,
    ensures
        keeps_count(pool_run(pool, on_finish, steps)),
    decreases steps.len(),
{
    broadcast use vstd::seq_lib::group_to_multiset_ensures;

    let run = pool_run(pool, on_finish, steps);
    if steps.len() == 0 {
        assert(all_jobs(run.pool) =~= run.queued.add(run.foreign));
        assert(run.started =~= run.queued.add(run.running).add(run.ended));
    } else {
        let before = pool_run(pool, on_finish, steps.drop_last());
        every_step_keeps_count(pool, on_finish, steps.drop_last());
        match steps.last() {
            PoolStep::Spawned { me, jobs } => {
                pushed_jobs_are_kept(before.pool, me, jobs);
                assert(all_jobs(run.pool) =~= run.queued.add(run.foreign));
                assert(run.started =~= run.queued.add(run.running).add(run.ended));
            },
            PoolStep::Pushed { me, jobs } => {
                pushed_jobs_are_kept(before.pool, me, jobs);
                assert(all_jobs(run.pool) =~= run.queued.add(run.foreign));
            },
            PoolStep::Took { me, own } => {
                no_job_is_lost(before.pool, me);
                let job = before.pool.taken(me).0->0;
                assert forall|j: J| #[trigger]
                    all_jobs(run.pool).count(j) == run.queued.add(run.foreign).count(j) by {
                    assert(all_jobs(run.pool).insert(job).count(j) == before.queued.add(
                        before.foreign,
                    ).count(j));
                }
                assert(all_jobs(run.pool) =~= run.queued.add(run.foreign));
                assert(run.started =~= run.queued.add(run.running).add(run.ended));
            },
            PoolStep::Ended { job } => {
                assert(run.started =~= run.queued.add(run.running).add(run.ended));
            },
            PoolStep::Armed => {},
        }
    }
}

proof fn nothing_is_empty<J>(jobs: Multiset<J>)
    requires
        jobs.len() == 0,
    ensures
        jobs == Multiset::<J>::empty(),
{
    assert forall|j: J| #[trigger] jobs.count(j) == 0 by {
        if jobs.count(j) > 0 {
            assert(jobs.remove(j).len() == jobs.len() - 1);
        }
    }
    assert(jobs =~= Multiset::<J>::empty());
}

proof fn empty_queues_hold_nothing<J>(workers: Seq<Seq<J>>)
    requires
        forall|i: int| 0 <= i < workers.len() ==> (#[trigger] workers[i]).len() == 0,
    ensures
        worker_jobs(workers) == Multiset::<J>::empty(),
    decreases workers.len(),
{
    broadcast use vstd::seq_lib::group_to_multiset_ensures;

    if workers.len() > 0 {
        let less = workers.drop_last();
        assert forall|i: int| 0 <= i < less.len() implies (#[trigger] less[i]).len() == 0 by {
            assert(less[i] == workers[i]);
        }
        empty_queues_hold_nothing(less);
        assert(workers[workers.len() - 1].len() == 0);
        assert(workers.last() =~= Seq::<J>::empty());
    }
    assert(worker_jobs(workers) =~= Multiset::<J>::empty());
}

/// Who waits returns exactly when the token was given back and every task of the
/// group, those that tasks started included, has been taken from the pool once
/// and has ended.
pub proof fn wait_returns_once_all_have_run<J>(
    pool: PoolModel<J>,
    on_finish: Option<J>,
    steps: Seq<PoolStep<J>>,
)
    requires
        pool_run(pool, on_finish, steps).possible,
    ensures
        ({
            let run = pool_run(pool, on_finish, steps);
            &&& run.started == run.queued.add(run.running).add(run.ended)
            &&& run.group.finished == (run.group.armed && run.ended == run.started)
            &&& run.group.finished ==> run.queued.len() == 0 && run.running.len() == 0
        }),
{
    every_step_keeps_count(pool, on_finish, steps);
    let run = pool_run(pool, on_finish, steps);
    if run.ended == run.started {
        assert(run.started.len() == run.queued.len() + run.running.len() + run.ended.len());
    }
    if run.queued.len() == 0 && run.running.len() == 0 {
        nothing_is_empty(run.queued);
        nothing_is_empty(run.running);
        assert(run.ended =~= run.started);
    }
}

/// Who waits is never stuck: as long as the group has not finished, there is a
/// job to help out with, or a task is still running, and the end of the last one
/// is what tells those who sleep. And with nothing left to do the group has
/// finished, so that who looks again returns.
pub proof fn a_wait_is_never_stuck<J>(
    pool: PoolModel<J>,
    on_finish: Option<J>,
    steps: Seq<PoolStep<J>>,
)
    requires
        pool_run(pool, on_finish, steps).possible,
        pool_run(pool, on_finish, steps).group.armed,
    ensures
        ({
            let run = pool_run(pool, on_finish, steps);
            &&& !run.group.finished ==> run.pool.taken(None).0 is Some || run.running.len() > 0
            &&& run.pool.taken(None).0 is Some ==> run.queued.count(run.pool.taken(None).0->0) > 0
                || run.foreign.count(run.pool.taken(None).0->0) > 0
            &&& run.running.len() == 1 && run.queued.len() == 0
                ==> run.group.completion() is Complete
            &&& run.left() == 0 ==> run.group.finished
        }),
{
    every_step_keeps_count(pool, on_finish, steps);
    let run = pool_run(pool, on_finish, steps);
    work_is_found(run.pool, None);
    if run.pool.taken(None).0 is None {
        broadcast use vstd::seq_lib::group_to_multiset_ensures;

        empty_queues_hold_nothing(run.pool.workers);
        assert(run.pool.injector =~= Seq::<J>::empty());
        assert(all_jobs(run.pool) =~= Multiset::<J>::empty());
        assert(all_jobs(run.pool).len() == run.queued.len() + run.foreign.len());
    } else {
        let job = run.pool.taken(None).0->0;
        no_job_is_lost(run.pool, None);
        assert(all_jobs(run.pool).count(job) > 0);
        assert(run.queued.add(run.foreign).count(job) > 0);
    }
}

/// A wait ends: every step but the start of further jobs leaves one step less to
/// take, so that no more can follow than are left.
pub proof fn a_wait_runs_out_of_steps<J>(
    pool: PoolModel<J>,
    on_finish: Option<J>,
    steps: Seq<PoolStep<J>>,
    more: Seq<PoolStep<J>>,
)
    requires
        pool_run(pool, on_finish, steps + more).possible,
        forall|i: int|
            0 <= i < more.len() ==> !((#[trigger] more[i]) is Spawned) && !(more[i] is Pushed),
    ensures
        pool_run(pool, on_finish, steps).possible,
        more.len() + pool_run(pool, on_finish, steps + more).left() == pool_run(
            pool,
            on_finish,
            steps,
        ).left(),
    decreases more.len(),
{
    if more.len() == 0 {
        assert(steps + more =~= steps);
    } else {
        let less = more.drop_last();
        let all = steps + more;
        assert(all.drop_last() =~= steps + less);
        assert(all.last() == more[more.len() - 1]);
        assert forall|i: int| 0 <= i < less.len() implies !((#[trigger] less[i]) is Spawned)
            && !(less[i] is Pushed) by {
            assert(less[i] == more[i]);
        }
        a_wait_runs_out_of_steps(pool, on_finish, steps, less);
    }
}

/// Something that happens to a queue that is drained.
pub enum DrainEvent<T> {
    Pushed(T),
    Next,
    Done,
}

/// What has happened to a queue since it was seeded.
pub struct DrainRun<T> {
    pub queue: QueueModel<T>,
    /// Nothing was noted as done that was not being worked on.
    pub possible: bool,
    /// The items that were put in, in the seed or later.
    pub entered: Multiset<T>,
    /// The items that were handed out.
    pub handed: Multiset<T>,
    pub ended: nat,
}

pub open spec fn drain_run<T>(seed: Seq<T>, events: Seq<DrainEvent<T>>) -> DrainRun<T>
    decreases events.len(),
{
    if events.len() == 0 {
        DrainRun {
            queue: QueueModel { items: seed, active: 0 },
            possible: true,
            entered: seed.to_multiset(),
            handed: Multiset::empty(),
            ended: 0,
        }
    } else {
        let run = drain_run(seed, events.drop_last());
        match events.last() {
            DrainEvent::Pushed(item) => DrainRun {
                queue: QueueModel { items: run.queue.items.push(item), ..run.queue },
                entered: run.entered.insert(item),
                ..run
            },
            DrainEvent::Next => DrainRun {
                queue: run.queue.after_next(),
                handed: match run.queue.next_step() {
                    DrainStep::Work(item) => run.handed.insert(item),
                    _ => run.handed,
                },
                ..run
            },
            DrainEvent::Done => DrainRun {
                queue: QueueModel { active: (run.queue.active - 1) as nat, ..run.queue },
                possible: run.possible && run.queue.active > 0,
                ended: run.ended + 1,
                ..run
            },
        }
    }
}

/// Every item that enters a queue is handed out once, and threads are told to
/// stop only when all have been and nobody works on one any more.
pub proof fn every_item_is_worked_on<T>(seed: Seq<T>, events: Seq<DrainEvent<T>>)
    requires
        drain_run(seed, events).possible,
    ensures
        ({
            let run = drain_run(seed, events);
            &&& run.handed.add(run.queue.items.to_multiset()) == run.entered
            &&& run.handed.len() == run.ended + run.queue.active
            &&& run.queue.next_step() is Stop ==> run.handed == run.entered && run.ended
                == run.entered.len()
        }),
    decreases events.len(),
{
    broadcast use vstd::seq_lib::group_to_multiset_ensures;

    let run = drain_run(seed, events);
    if events.len() == 0 {
        assert(run.handed.add(run.queue.items.to_multiset()) =~= run.entered);
    } else {
        let before = drain_run(seed, events.drop_last());
        every_item_is_worked_on(seed, events.drop_last());
        match events.last() {
            DrainEvent::Pushed(item) => {
                assert(run.handed.add(run.queue.items.to_multiset()) =~= run.entered);
            },
            DrainEvent::Next => {
                if before.queue.items.len() > 0 {
                    parts_of_queue(before.queue.items);
                }
                assert(run.handed.add(run.queue.items.to_multiset()) =~= run.entered);
            },
            DrainEvent::Done => {},
        }
    }
    if run.queue.items.len() == 0 {
        assert(run.queue.items =~= Seq::<T>::empty());
        assert(run.handed =~= run.entered);
    }
}

/// The results of items that were worked on in any order come out in the order
/// of the items.
pub proof fn results_keep_their_order<R>(numbered: Seq<(usize, R)>, results: Seq<R>)
    requires
        results.len() <= usize::MAX,
        numbered.to_multiset() == Seq::new(
            results.len(),
            |i: int| (i as usize, results[i]),
        ).to_multiset(),
    ensures
        ordered(numbered) == results,
{
    broadcast use vstd::seq_lib::group_to_multiset_ensures;

    let wanted = Seq::new(results.len(), |i: int| (i as usize, results[i]));
    let got = sorting::arranged(&ByIndex, numbered);
    sorting::arranged_is_arranged(&ByIndex, numbered);
    sorting::arranged_keeps_items(&ByIndex, numbered);
    assert forall|a: (usize, R), b: (usize, R)|
        got.contains(a) && got.contains(b) && !sorting::Order::before(&ByIndex, a, b)
            && !sorting::Order::before(&ByIndex, b, a) implies a == b by {
        assert(wanted.to_multiset().count(a) > 0);
        assert(wanted.to_multiset().count(b) > 0);
        assert(wanted.contains(a));
        assert(wanted.contains(b));
    }
    sorting::arrangement_is_unique(&ByIndex, got, wanted);
    assert(ordered(numbered) =~= results);
}

} // verus!
