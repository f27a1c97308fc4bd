//! The scheduler as a mathematical state machine.
//!
//! A job is known by its id. It sleeps while it waits for other jobs, is
//! ready while it waits in the queue, is in flight while a worker runs it,
//! hibernates while it waits for the jobs that it spawned, and is finished
//! at last. Finished ids are counted by a watermark, below which every id is
//! finished, and a list of the finished ids above it.

use vstd::prelude::*;

verus! {

/// A job that waits for other jobs.
pub struct Waiting {
    /// The id of the job.
    pub id: usize,
    /// The ids of the jobs that it waits for.
    pub deps: Seq<usize>,
}

/// The state of a scheduler.
pub struct SchedulerView {
    /// The number that tells this scheduler from all others.
    pub uid: u32,
    /// Every id up to this one is finished.
    pub watermark: usize,
    /// The id that the next job gets.
    pub next_id: usize,
    /// The finished ids above the watermark.
    pub gap: Seq<usize>,
    /// The jobs that wait for others before they are run.
    pub sleeping: Seq<Waiting>,
    /// The jobs that were run and wait for jobs that they spawned.
    pub hibernating: Seq<Waiting>,
    /// The ids of the unfinished jobs whose end somebody waits for.
    pub waiters: Seq<usize>,
    /// The ids of the jobs that are ready, first in first out.
    pub queue: Seq<usize>,
    /// The ids of the jobs that workers run.
    pub in_flight: Seq<usize>,
    /// Whether the queue has been closed.
    pub closed: bool,
}

/// The state of a fresh scheduler.
pub open spec fn initial(uid: u32) -> SchedulerView {
    SchedulerView {
        uid,
        watermark: 0,
        next_id: 1,
        gap: Seq::empty(),
        sleeping: Seq::empty(),
        hibernating: Seq::empty(),
        waiters: Seq::empty(),
        queue: Seq::empty(),
        in_flight: Seq::empty(),
        closed: false,
    }
}

/// Whether a job is finished: its id is at most the watermark or among the
/// finished ids above it.
pub open spec fn done(s: SchedulerView, id: usize) -> bool {
    id <= s.watermark || s.gap.contains(id)
}

/// Those of the first `n` ids of a list that are not finished, in order.
pub open spec fn live(s: SchedulerView, deps: Seq<usize>, n: nat) -> Seq<usize>
    decreases n,
{
    if n == 0 || n > deps.len() {
        Seq::empty()
    } else if done(s, deps[n - 1]) {
        live(s, deps, (n - 1) as nat)
    } else {
        live(s, deps, (n - 1) as nat).push(deps[n - 1])
    }
}

/// The first `n` ids of a list without every occurrence of `id`.
pub open spec fn without(deps: Seq<usize>, id: usize, n: nat) -> Seq<usize>
    decreases n,
{
    if n == 0 || n > deps.len() {
        Seq::empty()
    } else if deps[n - 1] == id {
        without(deps, id, (n - 1) as nat)
    } else {
        without(deps, id, (n - 1) as nat).push(deps[n - 1])
    }
}

/// What becomes of waiting jobs when a job finishes.
pub struct Swept {
    /// The jobs that still wait, without the finished job among what they
    /// wait for.
    pub waiting: Seq<Waiting>,
    /// The ids of the jobs that wait for nothing any more.
    pub freed: Seq<usize>,
}

/// What becomes of the first `n` waiting jobs when the job `id` finishes.
pub open spec fn sweep(entries: Seq<Waiting>, id: usize, n: nat) -> Swept
    decreases n,
{
    if n == 0 || n > entries.len() {
        Swept { waiting: Seq::empty(), freed: Seq::empty() }
    } else {
        let before = sweep(entries, id, (n - 1) as nat);
        let entry = entries[n - 1];
        let deps = without(entry.deps, id, entry.deps.len());
        if deps.len() == 0 {
            Swept { waiting: before.waiting, freed: before.freed.push(entry.id) }
        } else {
            Swept {
                waiting: before.waiting.push(Waiting { id: entry.id, deps }),
                freed: before.freed,
            }
        }
    }
}

/// A list of ids without the id at index `at`.
pub open spec fn remove_at(ids: Seq<usize>, at: int) -> Seq<usize> {
    ids.subrange(0, at) + ids.subrange(at + 1, ids.len() as int)
}

/// The index of the first occurrence of an id among the first `n` ids of a
/// list.
pub open spec fn first_at(ids: Seq<usize>, id: usize, n: nat) -> Option<int>
    decreases n,
{
    if n == 0 || n > ids.len() {
        None
    } else {
        match first_at(ids, id, (n - 1) as nat) {
            Some(i) => Some(i),
            None => if ids[n - 1] == id {
                Some(n - 1)
            } else {
                None
            },
        }
    }
}

/// The first occurrence of an id, where there is one, is an index at which
/// the id lies and before which it does not; where there is none, the id
/// does not occur.
pub proof fn lemma_first_at(ids: Seq<usize>, id: usize, n: nat)
    requires
        n <= ids.len(),
    ensures
        match first_at(ids, id, n) {
            Some(i) => 0 <= i < n && ids[i] == id && forall|j: int|
                0 <= j < i ==> #[trigger] ids[j] != id,
            None => forall|j: int| 0 <= j < n ==> #[trigger] ids[j] != id,
        },
    decreases n,
{
    if n > 0 {
        lemma_first_at(ids, id, (n - 1) as nat);
    }
}

/// A list of ids without the first occurrence of an id.
pub open spec fn remove_first(ids: Seq<usize>, id: usize) -> Seq<usize> {
    match first_at(ids, id, ids.len()) {
        Some(i) => remove_at(ids, i),
        None => ids,
    }
}

/// The watermark and the finished ids above it after the watermark has been
/// raised over every finished id that follows it directly.
pub open spec fn promote(watermark: usize, gap: Seq<usize>) -> (usize, Seq<usize>)
    decreases gap.len(),
{
    if watermark < usize::MAX {
        proof {
            lemma_first_at(gap, (watermark + 1) as usize, gap.len());
        }
        match first_at(gap, (watermark + 1) as usize, gap.len()) {
            Some(i) => promote((watermark + 1) as usize, remove_at(gap, i)),
            None => (watermark, gap),
        }
    } else {
        (watermark, gap)
    }
}

/// The state after a new job has been submitted that waits for the given
/// jobs: it gets the next id; where every job it waits for is finished it
/// becomes ready, else it sleeps.
pub open spec fn submitted(s: SchedulerView, deps: Seq<usize>) -> SchedulerView {
    let waits_for = live(s, deps, deps.len());
    let id = s.next_id;
    if waits_for.len() == 0 {
        SchedulerView { next_id: (id + 1) as usize, queue: s.queue.push(id), ..s }
    } else {
        SchedulerView {
            next_id: (id + 1) as usize,
            sleeping: s.sleeping.push(Waiting { id, deps: waits_for }),
            ..s
        }
    }
}

/// The state after the first ready job has been handed to a worker.
pub open spec fn dispatched(s: SchedulerView) -> SchedulerView {
    SchedulerView { queue: s.queue.drop_first(), in_flight: s.in_flight.push(s.queue[0]), ..s }
}

/// The state after somebody has begun to wait for the end of a job: a
/// finished job is not waited for.
pub open spec fn awaited(s: SchedulerView, id: usize) -> SchedulerView {
    if done(s, id) || s.waiters.contains(id) {
        s
    } else {
        SchedulerView { waiters: s.waiters.push(id), ..s }
    }
}

/// The state after the job `id` has ended, and the ids of the jobs of whose
/// end a waiter is notified, in the order of the notifications.
///
/// The job is taken out of what sleeping and hibernating jobs wait for.
/// Sleeping jobs that wait for nothing any more become ready. The job is
/// marked finished. Then the hibernating jobs that wait for nothing any
/// more end in the same way, one after the other, and at last the waiter
/// for the job itself is notified, if there is one. `depth` bounds how deep
/// the ends of hibernating jobs are followed; the number of hibernating
/// jobs plus one is always enough.
pub open spec fn completed(s: SchedulerView, id: usize, depth: nat) -> (SchedulerView, Seq<usize>)
    decreases depth, 0nat,
{
    if depth == 0 {
        (s, Seq::empty())
    } else {
        let asleep = sweep(s.sleeping, id, s.sleeping.len());
        let hibernating = sweep(s.hibernating, id, s.hibernating.len());
        let raised = promote(s.watermark, s.gap.push(id));
        let marked = SchedulerView {
            sleeping: asleep.waiting,
            queue: s.queue + asleep.freed,
            hibernating: hibernating.waiting,
            watermark: raised.0,
            gap: raised.1,
            waiters: remove_first(s.waiters, id),
            ..s
        };
        let after = completed_all(
            marked,
            hibernating.freed,
            hibernating.freed.len(),
            (depth - 1) as nat,
        );
        (
            after.0,
            if s.waiters.contains(id) {
                after.1.push(id)
            } else {
                after.1
            },
        )
    }
}

/// The state after the first `n` jobs of a list have ended one after the
/// other, and the notifications of all of them.
pub open spec fn completed_all(s: SchedulerView, ids: Seq<usize>, n: nat, depth: nat) -> (
    SchedulerView,
    Seq<usize>,
)
    decreases depth, 1 + n,
{
    if n == 0 || n > ids.len() {
        (s, Seq::empty())
    } else {
        let before = completed_all(s, ids, (n - 1) as nat, depth);
        let last = completed(before.0, ids[n - 1], depth);
        (last.0, before.1 + last.1)
    }
}

/// The state after a job in flight has ended, and the notifications.
pub open spec fn finished(s: SchedulerView, id: usize) -> (SchedulerView, Seq<usize>) {
    completed(
        SchedulerView { in_flight: remove_first(s.in_flight, id), ..s },
        id,
        s.hibernating.len() + 1,
    )
}

/// The state after a job in flight has begun to hibernate until the given
/// jobs are finished, and the notifications: where all of them are finished
/// already, the job ends at once.
pub open spec fn hibernated(s: SchedulerView, id: usize, deps: Seq<usize>) -> (
    SchedulerView,
    Seq<usize>,
) {
    let waits_for = live(s, deps, deps.len());
    let out = SchedulerView { in_flight: remove_first(s.in_flight, id), ..s };
    if waits_for.len() == 0 {
        completed(out, id, s.hibernating.len() + 1)
    } else {
        (
            SchedulerView {
                hibernating: out.hibernating.push(Waiting { id, deps: waits_for }),
                ..out
            },
            Seq::empty(),
        )
    }
}

/// The ids of a list of waiting jobs.
pub open spec fn ids_of(entries: Seq<Waiting>) -> Seq<usize> {
    Seq::new(entries.len(), |i: int| entries[i].id)
}

/// Whether a job is pending: it sleeps, is ready, is in flight or
/// hibernates.
pub open spec fn pending(s: SchedulerView, id: usize) -> bool {
    ids_of(s.sleeping).contains(id) || s.queue.contains(id) || s.in_flight.contains(id) || ids_of(
        s.hibernating,
    ).contains(id)
}

/// Whether every waiting job of a list waits for something, and for
/// unfinished jobs only.
pub open spec fn waits_sound(s: SchedulerView, entries: Seq<Waiting>) -> bool {
    forall|i: int|
        #![trigger entries[i]]
        0 <= i < entries.len() ==> {
            &&& entries[i].deps.len() > 0
            &&& forall|k: int|
                0 <= k < entries[i].deps.len() ==> !done(s, #[trigger] entries[i].deps[k])
        }
}

/// Whether two lists of ids have no id in common.
pub open spec fn disjoint(a: Seq<usize>, b: Seq<usize>) -> bool {
    forall|x: usize| !(a.contains(x) && b.contains(x))
}

/// Whether a job is in at most one of the states sleeping, ready, in flight
/// and hibernating, and in none of them twice.
pub open spec fn states_distinct(s: SchedulerView) -> bool {
    &&& ids_of(s.sleeping).no_duplicates()
    &&& s.queue.no_duplicates()
    &&& s.in_flight.no_duplicates()
    &&& ids_of(s.hibernating).no_duplicates()
    &&& disjoint(ids_of(s.sleeping), s.queue)
    &&& disjoint(ids_of(s.sleeping), s.in_flight)
    &&& disjoint(ids_of(s.sleeping), ids_of(s.hibernating))
    &&& disjoint(s.queue, s.in_flight)
    &&& disjoint(s.queue, ids_of(s.hibernating))
    &&& disjoint(s.in_flight, ids_of(s.hibernating))
}

/// Whether the finished ids are kept as they should be: the watermark is
/// below the next id, and the finished ids above the watermark are
/// different from each other and lie between the two.
pub open spec fn finished_sound(s: SchedulerView) -> bool {
    &&& s.watermark < s.next_id
    &&& s.gap.no_duplicates()
    &&& forall|i: int| 0 <= i < s.gap.len() ==> s.watermark < #[trigger] s.gap[i] < s.next_id
}

/// The invariant of a scheduler.
///
/// No id is given twice: every id in use is below the next id. A job is in
/// at most one of the states sleeping, ready, in flight and hibernating, and
/// in none of them if it is finished. Jobs that wait do wait for something,
/// and for unfinished jobs only. Nobody waits for the end of a finished
/// job.
pub open spec fn wf(s: SchedulerView) -> bool {
    &&& finished_sound(s)
    &&& states_distinct(s)
    &&& forall|id: usize| #[trigger] pending(s, id) ==> !done(s, id) && id < s.next_id
    &&& waits_sound(s, s.sleeping)
    &&& waits_sound(s, s.hibernating)
    &&& s.waiters.no_duplicates()
    &&& forall|i: int| 0 <= i < s.waiters.len() ==> !done(s, #[trigger] s.waiters[i])
}

} // verus!
