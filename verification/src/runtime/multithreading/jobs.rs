//! The job scheduler.
//!
//! The scheduler keeps the jobs that wait for each other and hands the
//! ready ones out in the order in which they became ready. It does not run
//! a job: a worker takes a handle from the queue, runs the job that the
//! handle stands for, and reports its end, or that it hibernates until jobs
//! that it spawned have ended.

use crate::runtime::multithreading::laws::{
    lemma_awaited_wf, lemma_closed_wf, lemma_dispatched_wf, lemma_finished, lemma_hibernated, lemma_initial_wf,
    lemma_submitted_wf,
};
use crate::runtime::multithreading::model::{
    awaited, completed, completed_all, dispatched, done, finished, first_at, hibernated, initial,
    lemma_first_at, live, promote, remove_at, remove_first, submitted, sweep, wf, without,
    SchedulerView, Swept, Waiting,
};
use vstd::prelude::*;

verus! {

/// The handle of a job: the number of the scheduler that made it, and the
/// id of the job in that scheduler.
#[derive(Debug, Clone, Copy, PartialEq, Eq)]
pub struct JobHandle {
    scheduler_uid: u32,
    job_id: usize,
}

impl JobHandle {
    /// The number of the scheduler that made this handle.
    pub fn get_scheduler_uid(&self) -> (uid: u32)
        ensures
            uid == self.uid(),
    {
        self.scheduler_uid
    }

    /// The id of the job.
    pub fn get_job_id(&self) -> (id: usize)
        ensures
            id == self.id(),
    {
        self.job_id
    }

    /// The number of the scheduler that made this handle.
    pub closed spec fn uid(&self) -> u32 {
        self.scheduler_uid
    }

    /// The id of the job.
    pub closed spec fn id(&self) -> usize {
        self.job_id
    }
}

/// The ids of a list of handles.
pub open spec fn handle_ids(handles: Seq<JobHandle>) -> Seq<usize> {
    Seq::new(handles.len(), |i: int| handles[i].id())
}

/// Whether every handle of a list was made by the scheduler of the given
/// number.
pub open spec fn all_from(handles: Seq<JobHandle>, uid: u32) -> bool {
    forall|i: int| 0 <= i < handles.len() ==> (#[trigger] handles[i]).uid() == uid
}

/// A job that waits for other jobs.
struct SleepingJob {
    id: usize,
    dependencies: Vec<usize>,
}

/// The views of a list of waiting jobs.
spec fn waiting_views(entries: Seq<SleepingJob>) -> Seq<Waiting> {
    Seq::new(entries.len(), |i: int| Waiting { id: entries[i].id, deps: entries[i].dependencies@ })
}

/// The queue of the ready jobs, first in first out.
#[derive(Debug, Clone, PartialEq, Eq)]
pub struct JobQueue {
    jobs: Vec<JobHandle>,
}

impl View for JobQueue {
    type V = Seq<JobHandle>;

    closed spec fn view(&self) -> Seq<JobHandle> {
        self.jobs@
    }
}

impl JobQueue {
    /// An empty queue.
    fn new() -> (q: Self)
        ensures
            q@ == Seq::<JobHandle>::empty(),
    {
        JobQueue { jobs: Vec::new() }
    }

    /// Puts a handle at the end of the queue.
    fn send(&mut self, handle: JobHandle)
        ensures
            final(self)@ == old(self)@.push(handle),
    {
        self.jobs.push(handle);
    }

    /// Takes the handle that has waited longest out of the queue; nothing
    /// where the queue is empty.
    pub fn next(&mut self) -> (r: Option<JobHandle>)
        ensures
            match r {
                Some(h) => old(self)@.len() > 0 && h == old(self)@[0] && final(self)@ == old(
                    self,
                )@.drop_first(),
                None => old(self)@.len() == 0 && final(self)@ == old(self)@,
            },
    {
        if self.jobs.len() == 0 {
            None
        } else {
            let h = self.jobs.remove(0);
            assert(self@ =~= old(self)@.drop_first());
            Some(h)
        }
    }

    /// The number of handles in the queue.
    pub fn len(&self) -> (n: usize)
        ensures
            n == self@.len(),
    {
        self.jobs.len()
    }
}

/// The first `n` ids of a list without every occurrence of `id`.
fn without_id(deps: &Vec<usize>, id: usize) -> (out: Vec<usize>)
    ensures
        out@ == without(deps@, id, deps@.len()),
{
    let mut out: Vec<usize> = Vec::new();
    let mut i: usize = 0;
    while i < deps.len()
        invariant
            i <= deps@.len(),
            out@ == without(deps@, id, i as nat),
        decreases deps@.len() - i,
    {
        if deps[i] != id {
            out.push(deps[i]);
        }
        i += 1;
    }
    out
}

/// Takes the job `id` out of what the jobs of a list wait for; gives the
/// ids of those that wait for nothing any more, and leaves the others.
fn sweep_list(entries: &mut Vec<SleepingJob>, id: usize) -> (freed: Vec<usize>)
    ensures
        sweep(waiting_views(old(entries)@), id, old(entries)@.len()) == (Swept {
            waiting: waiting_views(final(entries)@),
            freed: freed@,
        }),
{
    let mut kept: Vec<SleepingJob> = Vec::new();
    let mut freed: Vec<usize> = Vec::new();
    let ghost all = waiting_views(entries@);
    assert(waiting_views(kept@) =~= Seq::<Waiting>::empty());
    let mut i: usize = 0;
    while i < entries.len()
        invariant
            i <= entries@.len(),
            entries@ == old(entries)@,
            all == waiting_views(entries@),
            sweep(all, id, i as nat) == (Swept { waiting: waiting_views(kept@), freed: freed@ }),
        decreases entries@.len() - i,
    {
        let entry = &entries[i];
        assert(all[i as int] == (Waiting { id: entry.id, deps: entry.dependencies@ }));
        let deps = without_id(&entry.dependencies, id);
        let ghost before = waiting_views(kept@);
        if deps.len() == 0 {
            freed.push(entry.id);
        } else {
            let next = SleepingJob { id: entry.id, dependencies: deps };
            kept.push(next);
            assert(waiting_views(kept@) =~= before.push(
                Waiting { id: entry.id, deps: deps@ },
            ));
        }
        i += 1;
    }
    *entries = kept;
    freed
}

/// Takes the first occurrence of an id out of a list; says whether there
/// was one.
fn remove_first_id(ids: &mut Vec<usize>, id: usize) -> (found: bool)
    ensures
        final(ids)@ == remove_first(old(ids)@, id),
        found == old(ids)@.contains(id),
{
    let mut i: usize = 0;
    while i < ids.len()
        invariant
            i <= ids@.len(),
            ids@ == old(ids)@,
            first_at(ids@, id, i as nat) is None,
        decreases ids@.len() - i,
    {
        if ids[i] == id {
            proof {
                assert(first_at(ids@, id, (i + 1) as nat) == Some(i as int));
                lemma_first_at_extends(ids@, id, (i + 1) as nat, ids@.len());
            }
            ids.remove(i);
            assert(ids@ =~= remove_at(old(ids)@, i as int));
            return true;
        }
        i += 1;
    }
    proof {
        lemma_first_at(ids@, id, ids@.len());
    }
    false
}

/// An occurrence found among the first ids is found at the same place among
/// more of them.
proof fn lemma_first_at_extends(ids: Seq<usize>, id: usize, few: nat, many: nat)
    requires
        few <= many <= ids.len(),
        first_at(ids, id, few) is Some,
    ensures
        first_at(ids, id, many) == first_at(ids, id, few),
    decreases many,
{
    if few < many {
        lemma_first_at_extends(ids, id, few, (many - 1) as nat);
    }
}

/// A scheduler of jobs that depend on each other.
pub struct JobScheduler {
    scheduler_uid: u32,
    min_job_id: usize,
    cur_job_id: usize,
    buffer: Vec<usize>,
    sleeping_jobs: Vec<SleepingJob>,
    hibernating_jobs: Vec<SleepingJob>,
    push_notifications: Vec<usize>,
    job_queue: JobQueue,
    in_flight: Vec<usize>,
    closed: bool,
}

impl View for JobScheduler {
    type V = SchedulerView;

    closed spec fn view(&self) -> SchedulerView {
        SchedulerView {
            uid: self.scheduler_uid,
            watermark: self.min_job_id,
            next_id: self.cur_job_id,
            gap: self.buffer@,
            sleeping: waiting_views(self.sleeping_jobs@),
            hibernating: waiting_views(self.hibernating_jobs@),
            waiters: self.push_notifications@,
            queue: handle_ids(self.job_queue@),
            in_flight: self.in_flight@,
            closed: self.closed,
        }
    }
}

impl JobScheduler {
    /// Whether the handles in the queue are this scheduler's own.
    spec fn owns_queue(&self) -> bool {
        all_from(self.job_queue@, self.scheduler_uid)
    }

    /// The invariant of a scheduler: the handles in the queue are its own,
    /// and its state satisfies the invariant of the state machine.
    pub closed spec fn inv(&self) -> bool {
        self.owns_queue() && wf(self@)
    }

    /// What the invariant says of the state.
    pub proof fn lemma_inv(&self)
        requires
            self.inv(),
        ensures
            wf(self@),
    {
    }

    /// A scheduler with the given number and no jobs. The number has to
    /// differ from that of every other scheduler in the process.
    pub fn new(uid: u32) -> (s: Self)
        ensures
            s.inv(),
            s@ == initial(uid),
    {
        let s = JobScheduler {
            scheduler_uid: uid,
            min_job_id: 0,
            cur_job_id: 1,
            buffer: Vec::new(),
            sleeping_jobs: Vec::new(),
            hibernating_jobs: Vec::new(),
            push_notifications: Vec::new(),
            job_queue: JobQueue::new(),
            in_flight: Vec::new(),
            closed: false,
        };
        assert(s@.sleeping =~= Seq::<Waiting>::empty());
        assert(s@.hibernating =~= Seq::<Waiting>::empty());
        assert(s@.queue =~= Seq::<usize>::empty());
        proof {
            lemma_initial_wf(uid);
        }
        s
    }

    /// The number of this scheduler.
    pub fn get_scheduler_uid(&self) -> (uid: u32)
        ensures
            uid == self@.uid,
    {
        self.scheduler_uid
    }

    /// The handle of the job with the given id.
    fn handle_of(&self, id: usize) -> (h: JobHandle)
        ensures
            h.uid() == self@.uid,
            h.id() == id,
    {
        JobHandle { scheduler_uid: self.scheduler_uid, job_id: id }
    }

    /// Whether a handle was made by this scheduler.
    pub fn owns(&self, job: &JobHandle) -> (r: bool)
        ensures
            r == (job.uid() == self@.uid),
    {
        job.scheduler_uid == self.scheduler_uid
    }

    /// Whether every handle of a list was made by this scheduler.
    pub fn owns_all(&self, jobs: &Vec<JobHandle>) -> (r: bool)
        ensures
            r == all_from(jobs@, self@.uid),
    {
        let mut i: usize = 0;
        while i < jobs.len()
            invariant
                i <= jobs@.len(),
                forall|j: int| 0 <= j < i ==> (#[trigger] jobs@[j]).uid() == self@.uid,
            decreases jobs@.len() - i,
        {
            if jobs[i].scheduler_uid != self.scheduler_uid {
                return false;
            }
            i += 1;
        }
        true
    }

    /// Whether the job with the given id is finished.
    fn id_done(&self, id: usize) -> (r: bool)
        ensures
            r == done(self@, id),
    {
        if id <= self.min_job_id {
            return true;
        }
        let mut i: usize = 0;
        while i < self.buffer.len()
            invariant
                i <= self.buffer@.len(),
                forall|j: int| 0 <= j < i ==> self.buffer@[j] != id,
            decreases self.buffer@.len() - i,
        {
            if self.buffer[i] == id {
                return true;
            }
            i += 1;
        }
        false
    }

    /// Whether a job is finished.
    pub fn is_done(&self, job: &JobHandle) -> (r: bool)
        requires
            job.uid() == self@.uid,
        ensures
            r == done(self@, job.id()),
    {
        self.id_done(job.job_id)
    }

    /// Whether a job is in flight: it was taken from the queue and has
    /// neither ended nor begun to hibernate.
    pub fn is_in_flight(&self, job: &JobHandle) -> (r: bool)
        ensures
            r == (job.uid() == self@.uid && self@.in_flight.contains(job.id())),
    {
        if job.scheduler_uid != self.scheduler_uid {
            return false;
        }
        let mut i: usize = 0;
        while i < self.in_flight.len()
            invariant
                i <= self.in_flight@.len(),
                job.uid() == self@.uid,
                forall|j: int| 0 <= j < i ==> self.in_flight@[j] != job.id(),
            decreases self.in_flight@.len() - i,
        {
            if self.in_flight[i] == job.job_id {
                return true;
            }
            i += 1;
        }
        false
    }

    /// Whether a job can be taken from the queue.
    pub fn is_ready(&self) -> (r: bool)
        ensures
            r == (!self@.closed && self@.queue.len() > 0),
    {
        !self.closed && self.job_queue.len() > 0
    }

    /// Whether the queue has been closed.
    pub fn is_closed(&self) -> (r: bool)
        ensures
            r == self@.closed,
    {
        self.closed
    }

    /// Whether another job can be submitted: the ids are not used up.
    pub fn has_capacity(&self) -> (r: bool)
        ensures
            r == (self@.next_id < usize::MAX),
    {
        self.cur_job_id < usize::MAX
    }

    /// The ids of those jobs of a list that are not finished.
    fn live_ids(&self, dependencies: &Vec<JobHandle>) -> (out: Vec<usize>)
        ensures
            out@ == live(self@, handle_ids(dependencies@), dependencies@.len()),
    {
        let mut out: Vec<usize> = Vec::new();
        let ghost ids = handle_ids(dependencies@);
        let mut i: usize = 0;
        while i < dependencies.len()
            invariant
                i <= dependencies@.len(),
                ids == handle_ids(dependencies@),
                out@ == live(self@, ids, i as nat),
            decreases dependencies@.len() - i,
        {
            let id = dependencies[i].job_id;
            assert(ids[i as int] == id);
            if !self.id_done(id) {
                out.push(id);
            }
            i += 1;
        }
        out
    }

    /// Submits a job that waits for the given jobs, and gives its handle.
    /// Where all of them are finished, the job is ready at once.
    pub fn new_job(&mut self, dependencies: Vec<JobHandle>) -> (job: JobHandle)
        requires
            old(self).inv(),
            all_from(dependencies@, old(self)@.uid),
            old(self)@.next_id < usize::MAX,
        ensures
            final(self).inv(),
            job.uid() == old(self)@.uid,
            job.id() == old(self)@.next_id,
            final(self)@ == submitted(old(self)@, handle_ids(dependencies@)),
    {
        proof {
            lemma_submitted_wf(self@, handle_ids(dependencies@));
        }
        let dependencies = self.live_ids(&dependencies);
        let job_id = self.cur_job_id;
        self.cur_job_id += 1;
        let job = JobHandle { scheduler_uid: self.scheduler_uid, job_id };
        if dependencies.len() == 0 {
            self.job_queue.send(job);
            assert(self@.queue =~= old(self)@.queue.push(job_id));
        } else {
            let ghost before = waiting_views(self.sleeping_jobs@);
            self.sleeping_jobs.push(SleepingJob { id: job_id, dependencies });
            assert(waiting_views(self.sleeping_jobs@) =~= before.push(
                Waiting { id: job_id, deps: dependencies@ },
            ));
        }
        job
    }

    /// Hands the job that has been ready longest to a worker. There is
    /// nothing to hand out where no job is ready or the queue is closed.
    pub fn queue_next(&mut self) -> (r: Option<JobHandle>)
        requires
            old(self).inv(),
        ensures
            final(self).inv(),
            match r {
                Some(job) => {
                    &&& !old(self)@.closed
                    &&& old(self)@.queue.len() > 0
                    &&& job.uid() == old(self)@.uid
                    &&& job.id() == old(self)@.queue[0]
                    &&& final(self)@ == dispatched(old(self)@)
                },
                None => (old(self)@.closed || old(self)@.queue.len() == 0) && final(self)@ == old(
                    self,
                )@,
            },
    {
        if self.closed {
            return None;
        }
        proof {
            if self@.queue.len() > 0 {
                lemma_dispatched_wf(self@);
            }
        }
        match self.job_queue.next() {
            Some(job) => {
                self.in_flight.push(job.job_id);
                assert(self@.queue =~= old(self)@.queue.drop_first());
                Some(job)
            },
            None => None,
        }
    }

    /// Raises the watermark over every finished id that follows it
    /// directly.
    fn raise_watermark(&mut self)
        ensures
            promote(old(self)@.watermark, old(self)@.gap) == (
                final(self)@.watermark,
                final(self)@.gap,
            ),
            final(self)@ == (SchedulerView {
                watermark: final(self)@.watermark,
                gap: final(self)@.gap,
                ..old(self)@
            }),
            final(self).job_queue == old(self).job_queue,
    {
        loop
            invariant
                promote(old(self)@.watermark, old(self)@.gap) == promote(
                    self@.watermark,
                    self@.gap,
                ),
                self@ == (SchedulerView {
                    watermark: self@.watermark,
                    gap: self@.gap,
                    ..old(self)@
                }),
                self.job_queue == old(self).job_queue,
            decreases self.buffer@.len(),
        {
            if self.min_job_id == usize::MAX {
                return ;
            }
            let next_min_id = self.min_job_id + 1;
            let ghost gap = self.buffer@;
            let mut i: usize = 0;
            let mut found = false;
            while i < self.buffer.len()
                invariant_except_break
                    first_at(gap, next_min_id, i as nat) is None,
                    !found,
                invariant
                    i <= self.buffer@.len(),
                    gap == self.buffer@,
                ensures
                    found ==> i < gap.len() && first_at(gap, next_min_id, gap.len()) == Some(
                        i as int,
                    ),
                    !found ==> first_at(gap, next_min_id, gap.len()) is None,
                decreases self.buffer@.len() - i,
            {
                if self.buffer[i] == next_min_id {
                    proof {
                        assert(first_at(gap, next_min_id, (i + 1) as nat) == Some(i as int));
                        lemma_first_at_extends(gap, next_min_id, (i + 1) as nat, gap.len());
                    }
                    found = true;
                    break ;
                }
                i += 1;
            }
            if !found {
                return ;
            }
            self.buffer.remove(i);
            assert(self.buffer@ =~= remove_at(gap, i as int));
            self.min_job_id = next_min_id;
        }
    }

    /// Marks the end of a job that is in none of the lists, and of every
    /// hibernating job that waited for nothing else; appends the handles of
    /// the jobs of whose end a waiter is to be notified.
    fn complete(&mut self, id: usize, notified: &mut Vec<JobHandle>, Ghost(depth): Ghost<nat>)
        requires
            old(self).owns_queue(),
            depth > old(self)@.hibernating.len(),
            all_from(old(notified)@, old(self)@.uid),
        ensures
            final(self).owns_queue(),
            final(self)@ == completed(old(self)@, id, depth).0,
            handle_ids(final(notified)@) == handle_ids(old(notified)@) + completed(
                old(self)@,
                id,
                depth,
            ).1,
            all_from(final(notified)@, old(self)@.uid),
            final(self)@.hibernating.len() <= old(self)@.hibernating.len(),
            final(self)@.uid == old(self)@.uid,
        decreases depth,
    {
        let ghost start = self@;
        let ghost notes = handle_ids(notified@);
        // Wake the sleeping jobs that waited for this job only.
        let woken = sweep_list(&mut self.sleeping_jobs, id);
        let mut i: usize = 0;
        while i < woken.len()
            invariant
                i <= woken@.len(),
                self.owns_queue(),
                self@ == (SchedulerView {
                    sleeping: sweep(start.sleeping, id, start.sleeping.len()).waiting,
                    queue: start.queue + woken@.subrange(0, i as int),
                    ..start
                }),
            decreases woken@.len() - i,
        {
            let h = self.handle_of(woken[i]);
            let ghost before = self@.queue;
            self.job_queue.send(h);
            assert(self@.queue =~= before.push(woken@[i as int]));
            assert(self@.queue =~= start.queue + woken@.subrange(0, i + 1));
            i += 1;
        }
        assert(woken@.subrange(0, woken@.len() as int) =~= woken@);
        // Find the hibernating jobs that waited for this job only.
        let ended = sweep_list(&mut self.hibernating_jobs, id);
        proof {
            lemma_sweep_len(start.hibernating, id, start.hibernating.len());
        }
        // Mark this job finished.
        self.buffer.push(id);
        self.raise_watermark();
        let waited = remove_first_id(&mut self.push_notifications, id);
        let ghost marked = self@;
        // End the hibernating jobs that wait for nothing any more.
        let mut k: usize = 0;
        while k < ended.len()
            invariant
                k <= ended@.len(),
                self.owns_queue(),
                self@.uid == start.uid,
                depth > 0,
                depth - 1 >= marked.hibernating.len(),
                ended@.len() > 0 ==> depth - 1 > marked.hibernating.len(),
                self@.hibernating.len() <= marked.hibernating.len(),
                all_from(notified@, start.uid),
                self@ == completed_all(marked, ended@, k as nat, (depth - 1) as nat).0,
                handle_ids(notified@) == notes + completed_all(
                    marked,
                    ended@,
                    k as nat,
                    (depth - 1) as nat,
                ).1,
            decreases ended@.len() - k,
        {
            let ghost before = handle_ids(notified@);
            let ghost sofar = completed_all(marked, ended@, k as nat, (depth - 1) as nat);
            self.complete(ended[k], notified, Ghost((depth - 1) as nat));
            proof {
                let step = completed(sofar.0, ended@[k as int], (depth - 1) as nat);
                assert(handle_ids(notified@) =~= notes + (sofar.1 + step.1));
            }
            k += 1;
        }
        if waited {
            let h = self.handle_of(id);
            let ghost before = handle_ids(notified@);
            notified.push(h);
            assert(handle_ids(notified@) =~= before.push(id));
            assert forall|j: int| 0 <= j < notified@.len() implies (#[trigger] notified@[j]).uid()
                == start.uid by {
                if j < notified@.len() - 1 {
                    assert(notified@[j] == old(notified)@[j] || true);
                }
            }
        }
        proof {
            let all = completed_all(marked, ended@, ended@.len(), (depth - 1) as nat);
            if waited {
                assert(handle_ids(notified@) =~= notes + all.1.push(id));
            }
        }
    }

    /// Reports the end of a job in flight. Gives the handles of the jobs of
    /// whose end a waiter is to be notified, in the order of the
    /// notifications.
    pub fn finish_job(&mut self, job: JobHandle) -> (notified: Vec<JobHandle>)
        requires
            old(self).inv(),
            job.uid() == old(self)@.uid,
            old(self)@.in_flight.contains(job.id()),
        ensures
            final(self).inv(),
            final(self)@ == finished(old(self)@, job.id()).0,
            handle_ids(notified@) == finished(old(self)@, job.id()).1,
            all_from(notified@, old(self)@.uid),
            final(self)@.next_id == old(self)@.next_id,
            final(self)@.uid == old(self)@.uid,
            final(self)@.closed == old(self)@.closed,
            done(final(self)@, job.id()),
            handle_ids(notified@).no_duplicates(),
            forall|x: usize|
                #[trigger] handle_ids(notified@).contains(x) ==> {
                    &&& old(self)@.waiters.contains(x)
                    &&& !done(old(self)@, x)
                    &&& done(final(self)@, x)
                    &&& !final(self)@.waiters.contains(x)
                },
    {
        let mut notified: Vec<JobHandle> = Vec::new();
        assert(handle_ids(notified@) =~= Seq::<usize>::empty());
        proof {
            lemma_finished(self@, job.id());
        }
        remove_first_id(&mut self.in_flight, job.job_id);
        let ghost depth = (self@.hibernating.len() + 1) as nat;
        let ghost before = self@;
        self.complete(job.job_id, &mut notified, Ghost(depth));
        assert(handle_ids(notified@) =~= completed(before, job.id(), depth).1);
        notified
    }

    /// Reports that a job in flight hibernates until the given jobs, which
    /// it spawned, are finished. Where all of them are finished already,
    /// the job ends at once. Gives the handles of the jobs of whose end a
    /// waiter is to be notified.
    pub fn hibernate(&mut self, job: JobHandle, dependencies: Vec<JobHandle>) -> (notified: Vec<
        JobHandle,
    >)
        requires
            old(self).inv(),
            job.uid() == old(self)@.uid,
            all_from(dependencies@, old(self)@.uid),
            old(self)@.in_flight.contains(job.id()),
        ensures
            final(self).inv(),
            final(self)@ == hibernated(old(self)@, job.id(), handle_ids(dependencies@)).0,
            handle_ids(notified@) == hibernated(
                old(self)@,
                job.id(),
                handle_ids(dependencies@),
            ).1,
            all_from(notified@, old(self)@.uid),
            final(self)@.next_id == old(self)@.next_id,
            final(self)@.uid == old(self)@.uid,
            final(self)@.closed == old(self)@.closed,
            handle_ids(notified@).no_duplicates(),
            forall|x: usize|
                #[trigger] handle_ids(notified@).contains(x) ==> {
                    &&& old(self)@.waiters.contains(x)
                    &&& !done(old(self)@, x)
                    &&& done(final(self)@, x)
                    &&& !final(self)@.waiters.contains(x)
                },
    {
        let mut notified: Vec<JobHandle> = Vec::new();
        assert(handle_ids(notified@) =~= Seq::<usize>::empty());
        proof {
            lemma_hibernated(self@, job.id(), handle_ids(dependencies@));
        }
        let dependencies = self.live_ids(&dependencies);
        remove_first_id(&mut self.in_flight, job.job_id);
        if dependencies.len() == 0 {
            let ghost depth = (self@.hibernating.len() + 1) as nat;
            let ghost before = self@;
            self.complete(job.job_id, &mut notified, Ghost(depth));
            assert(handle_ids(notified@) =~= completed(before, job.id(), depth).1);
            return notified;
        }
        let ghost before = waiting_views(self.hibernating_jobs@);
        self.hibernating_jobs.push(SleepingJob { id: job.job_id, dependencies });
        assert(waiting_views(self.hibernating_jobs@) =~= before.push(
            Waiting { id: job.job_id, deps: dependencies@ },
        ));
        notified
    }

    /// Begins to wait for the end of a job; says whether there is anything
    /// to wait for. A finished job is not waited for.
    pub fn build_job_notify_channel(&mut self, job: &JobHandle) -> (waits: bool)
        requires
            old(self).inv(),
            job.uid() == old(self)@.uid,
        ensures
            final(self).inv(),
            waits == !done(old(self)@, job.id()),
            final(self)@ == awaited(old(self)@, job.id()),
    {
        proof {
            lemma_awaited_wf(self@, job.id());
        }
        if self.id_done(job.job_id) {
            return false;
        }
        let mut i: usize = 0;
        while i < self.push_notifications.len()
            invariant
                i <= self.push_notifications@.len(),
                *self == *old(self),
                self.inv(),
                !done(self@, job.id()),
                forall|j: int| 0 <= j < i ==> self.push_notifications@[j] != job.id(),
            decreases self.push_notifications@.len() - i,
        {
            if self.push_notifications[i] == job.job_id {
                return true;
            }
            i += 1;
        }
        self.push_notifications.push(job.job_id);
        true
    }

    /// Closes the queue: from now on no job is handed out.
    pub fn terminate_workers(&mut self)
        requires
            old(self).inv(),
        ensures
            final(self).inv(),
            final(self)@ == (SchedulerView { closed: true, ..old(self)@ }),
    {
        proof {
            lemma_closed_wf(self@);
        }
        self.closed = true;
    }

    /// The number of finished jobs, as far as it can be counted.
    pub fn get_finished_jobs(&self) -> (n: usize)
        ensures
            n == (if self@.watermark + self@.gap.len() <= usize::MAX {
                (self@.watermark + self@.gap.len()) as usize
            } else {
                usize::MAX
            }),
    {
        match self.min_job_id.checked_add(self.buffer.len()) {
            Some(n) => n,
            None => usize::MAX,
        }
    }
}

/// No more jobs are left waiting than there were.
proof fn lemma_sweep_len(entries: Seq<Waiting>, id: usize, n: nat)
    requires
        n <= entries.len(),
    ensures
        sweep(entries, id, n).waiting.len() + sweep(entries, id, n).freed.len() == n,
    decreases n,
{
    if n > 0 {
        lemma_sweep_len(entries, id, (n - 1) as nat);
    }
}

} // verus!
