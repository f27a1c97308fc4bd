//! A scheduler seen from one call further out.
//!
//! Where a function does nothing but call another, the scheduler of its
//! execution holds the jobs of the other's execution under other ids, and
//! two jobs more: the job of the outer call, which hibernates, and the job
//! that hands the result on, which sleeps until the inner call has ended.
//! This file says how the outer scheduler is had from the inner one, and
//! proves that the two move in step as long as the inner call has not
//! ended.

use crate::runtime::multithreading::model::{
    completed, completed_all, dispatched, done, finished, first_at, hibernated, ids_of,
    lemma_first_at, live, promote, remove_first, submitted, sweep, without, SchedulerView, Swept,
    Waiting,
};
use vstd::prelude::*;

verus! {

/// The id that a job of the inner execution has in the outer one: the job
/// of the inner call comes second there, and every later job two ids
/// later.
pub open spec fn moved(id: usize) -> usize {
    if id == 1 {
        2
    } else {
        (id + 2) as usize
    }
}

/// Whether an id has been given out by a scheduler whose next id is
/// `bound`.
pub open spec fn small(id: usize, bound: usize) -> bool {
    1 <= id < bound
}

/// The ids of a list as the outer execution has them.
pub open spec fn moved_ids(ids: Seq<usize>) -> Seq<usize> {
    Seq::new(ids.len(), |i: int| moved(ids[i]))
}

/// A waiting job as the outer execution has it.
pub open spec fn moved_entry(entry: Waiting) -> Waiting {
    Waiting { id: moved(entry.id), deps: moved_ids(entry.deps) }
}

/// Waiting jobs as the outer execution has them.
pub open spec fn moved_entries(entries: Seq<Waiting>) -> Seq<Waiting> {
    Seq::new(entries.len(), |i: int| moved_entry(entries[i]))
}

/// Whether all ids of a list have been given out.
pub open spec fn ids_small(ids: Seq<usize>, bound: usize) -> bool {
    forall|i: int| 0 <= i < ids.len() ==> small(#[trigger] ids[i], bound)
}

/// Whether the ids of waiting jobs, and of the jobs that they wait for,
/// have been given out.
pub open spec fn entries_small(entries: Seq<Waiting>, bound: usize) -> bool {
    forall|i: int|
        0 <= i < entries.len() ==> small((#[trigger] entries[i]).id, bound) && ids_small(
            entries[i].deps,
            bound,
        )
}

/// The job of the outer execution that hands the result on: it sleeps
/// until the inner call has ended.
pub open spec fn handing_on() -> Waiting {
    Waiting { id: 3, deps: seq![2usize] }
}

/// The job of the outer call: it hibernates until the result has been
/// handed on.
pub open spec fn outer_call() -> Waiting {
    Waiting { id: 1, deps: seq![3usize] }
}

/// The scheduler of the outer execution, as long as the inner call has not
/// ended.
pub open spec fn outer(s: SchedulerView) -> SchedulerView {
    SchedulerView {
        uid: s.uid,
        watermark: s.watermark,
        next_id: (s.next_id + 2) as usize,
        gap: moved_ids(s.gap),
        sleeping: seq![handing_on()] + moved_entries(s.sleeping),
        hibernating: seq![outer_call()] + moved_entries(s.hibernating),
        waiters: s.waiters,
        queue: moved_ids(s.queue),
        in_flight: moved_ids(s.in_flight),
        closed: s.closed,
    }
}

/// What holds of the inner scheduler as long as the inner call has not
/// ended: no job is finished up to a watermark, for the first job is not
/// finished; nobody waits for the end of a job; every id in it has been
/// given out; and the outer execution has two ids to spare.
pub open spec fn tame(s: SchedulerView) -> bool {
    &&& s.watermark == 0
    &&& s.waiters.len() == 0
    &&& !s.gap.contains(1)
    &&& 2 <= s.next_id
    &&& s.next_id + 2 <= usize::MAX
    &&& ids_small(s.gap, s.next_id)
    &&& ids_small(s.queue, s.next_id)
    &&& ids_small(s.in_flight, s.next_id)
    &&& entries_small(s.sleeping, s.next_id)
    &&& entries_small(s.hibernating, s.next_id)
}

/// Whether the first job, where it waits among the given jobs, waits for
/// the job `last`.
pub open spec fn pinned(entries: Seq<Waiting>, last: usize) -> bool {
    forall|i: int|
        0 <= i < entries.len() && (#[trigger] entries[i]).id == 1 ==> entries[i].deps.contains(last)
}

/// Different ids stay different in the outer execution, and none of them
/// becomes the id of one of its two own jobs.
pub proof fn lemma_moved(a: usize, b: usize, bound: usize)
    requires
        small(a, bound),
        small(b, bound),
        bound + 2 <= usize::MAX,
    ensures
        (moved(a) == moved(b)) == (a == b),
        moved(a) != 1,
        moved(a) != 3,
        small(moved(a), (bound + 2) as usize),
        2 <= a ==> moved(a) == a + 2,
{
}

/// A list holds an id where its outer form holds the id's outer form, and
/// the outer form holds neither of the two own jobs.
pub proof fn lemma_moved_contains(ids: Seq<usize>, x: usize, bound: usize)
    requires
        ids_small(ids, bound),
        small(x, bound),
        bound + 2 <= usize::MAX,
    ensures
        moved_ids(ids).contains(moved(x)) == ids.contains(x),
        !moved_ids(ids).contains(1),
        !moved_ids(ids).contains(3),
        ids_small(moved_ids(ids), (bound + 2) as usize),
{
    let outer_ids = moved_ids(ids);
    if ids.contains(x) {
        let i = choose|i: int| 0 <= i < ids.len() && ids[i] == x;
        assert(outer_ids[i] == moved(x));
    }
    if outer_ids.contains(moved(x)) {
        let i = choose|i: int| 0 <= i < outer_ids.len() && outer_ids[i] == moved(x);
        lemma_moved(ids[i], x, bound);
        assert(ids[i] == x);
    }
    if outer_ids.contains(1) {
        let i = choose|i: int| 0 <= i < outer_ids.len() && outer_ids[i] == 1;
        lemma_moved(ids[i], ids[i], bound);
    }
    if outer_ids.contains(3) {
        let i = choose|i: int| 0 <= i < outer_ids.len() && outer_ids[i] == 3;
        lemma_moved(ids[i], ids[i], bound);
    }
    assert forall|i: int| 0 <= i < outer_ids.len() implies small(
        #[trigger] outer_ids[i],
        (bound + 2) as usize,
    ) by {
        lemma_moved(ids[i], ids[i], bound);
    }
}

/// Taking an id out of a list is the same in both executions.
pub proof fn lemma_without_moved(deps: Seq<usize>, id: usize, n: nat, bound: usize)
    requires
        n <= deps.len(),
        ids_small(deps, bound),
        small(id, bound),
        bound + 2 <= usize::MAX,
    ensures
        without(moved_ids(deps), moved(id), n) == moved_ids(without(deps, id, n)),
        ids_small(without(deps, id, n), bound),
    decreases n,
{
    let inner = without(deps, id, n);
    let there = without(moved_ids(deps), moved(id), n);
    if n == 0 {
        assert(there =~= moved_ids(inner));
    } else {
        lemma_without_moved(deps, id, (n - 1) as nat, bound);
        let before = without(deps, id, (n - 1) as nat);
        lemma_moved(deps[n - 1], id, bound);
        assert(moved_ids(deps)[n - 1] == moved(deps[n - 1]));
        assert(there =~= moved_ids(inner));
    }
}

/// Whether a job is finished is the same in both executions.
pub proof fn lemma_done_moved(s: SchedulerView, id: usize)
    requires
        tame(s),
        small(id, s.next_id),
    ensures
        done(outer(s), moved(id)) == done(s, id),
{
    lemma_moved_contains(s.gap, id, s.next_id);
    lemma_moved(id, id, s.next_id);
}

/// The unfinished jobs of a list are the same in both executions.
pub proof fn lemma_live_moved(s: SchedulerView, deps: Seq<usize>, n: nat)
    requires
        tame(s),
        n <= deps.len(),
        ids_small(deps, s.next_id),
    ensures
        live(outer(s), moved_ids(deps), n) == moved_ids(live(s, deps, n)),
        ids_small(live(s, deps, n), s.next_id),
    decreases n,
{
    let inner = live(s, deps, n);
    let there = live(outer(s), moved_ids(deps), n);
    if n == 0 {
        assert(there =~= moved_ids(inner));
    } else {
        lemma_live_moved(s, deps, (n - 1) as nat);
        lemma_done_moved(s, deps[n - 1]);
        assert(moved_ids(deps)[n - 1] == moved(deps[n - 1]));
        assert(there =~= moved_ids(inner));
    }
}

/// What a list of waiting jobs becomes when a job ends, where a job stands
/// before the list that goes on waiting.
pub proof fn lemma_sweep_head(head: Waiting, rest: Seq<Waiting>, id: usize, n: nat)
    requires
        n <= rest.len(),
        without(head.deps, id, head.deps.len()).len() > 0,
    ensures
        sweep(seq![head] + rest, id, n + 1) == (Swept {
            waiting: seq![
                Waiting { id: head.id, deps: without(head.deps, id, head.deps.len()) },
            ] + sweep(rest, id, n).waiting,
            freed: sweep(rest, id, n).freed,
        }),
    decreases n,
{
    let all = seq![head] + rest;
    let kept = Waiting { id: head.id, deps: without(head.deps, id, head.deps.len()) };
    let got = sweep(all, id, n + 1);
    if n == 0 {
        assert(all[0] == head);
        let nothing = sweep(all, id, 0);
        assert(nothing.waiting.len() == 0 && nothing.freed.len() == 0);
        assert(got.waiting =~= nothing.waiting.push(kept));
        assert(got.waiting =~= seq![kept] + sweep(rest, id, 0).waiting);
        assert(got.freed =~= sweep(rest, id, 0).freed);
    } else {
        lemma_sweep_head(head, rest, id, (n - 1) as nat);
        assert(all[n as int] == rest[n - 1]);
        assert(got.waiting =~= seq![kept] + sweep(rest, id, n).waiting);
        assert(got.freed =~= sweep(rest, id, n).freed);
    }
}

/// What becomes of waiting jobs when a job ends is the same in both
/// executions, and the jobs that go on waiting and the jobs that are freed
/// were among the waiting jobs.
pub proof fn lemma_sweep_moved(entries: Seq<Waiting>, id: usize, n: nat, bound: usize)
    requires
        n <= entries.len(),
        entries_small(entries, bound),
        small(id, bound),
        bound + 2 <= usize::MAX,
    ensures
        sweep(moved_entries(entries), moved(id), n) == (Swept {
            waiting: moved_entries(sweep(entries, id, n).waiting),
            freed: moved_ids(sweep(entries, id, n).freed),
        }),
        entries_small(sweep(entries, id, n).waiting, bound),
        ids_small(sweep(entries, id, n).freed, bound),
        forall|x: usize|
            ids_of(sweep(entries, id, n).waiting).contains(x) ==> ids_of(entries).contains(x),
        forall|x: usize| sweep(entries, id, n).freed.contains(x) ==> ids_of(entries).contains(x),
        sweep(entries, id, n).waiting.len() + sweep(entries, id, n).freed.len() == n,
    decreases n,
{
    let inner = sweep(entries, id, n);
    let there = sweep(moved_entries(entries), moved(id), n);
    if n == 0 {
        assert(there.waiting =~= moved_entries(inner.waiting));
        assert(there.freed =~= moved_ids(inner.freed));
    } else {
        lemma_sweep_moved(entries, id, (n - 1) as nat, bound);
        let before = sweep(entries, id, (n - 1) as nat);
        let entry = entries[n - 1];
        let deps = without(entry.deps, id, entry.deps.len());
        lemma_without_moved(entry.deps, id, entry.deps.len(), bound);
        assert(moved_entries(entries)[n - 1] == moved_entry(entry));
        assert(moved_ids(deps).len() == deps.len());
        assert(ids_of(entries)[n - 1] == entry.id);
        if deps.len() == 0 {
            assert(there.waiting =~= moved_entries(inner.waiting));
            assert(there.freed =~= moved_ids(inner.freed));
            assert forall|x: usize| inner.freed.contains(x) implies ids_of(entries).contains(x) by {
                let k = choose|k: int| 0 <= k < inner.freed.len() && inner.freed[k] == x;
                if k < before.freed.len() {
                    assert(before.freed[k] == x);
                    assert(before.freed.contains(x));
                }
            }
            assert forall|i: int| 0 <= i < inner.freed.len() implies small(
                #[trigger] inner.freed[i],
                bound,
            ) by {
                if i < before.freed.len() {
                    assert(inner.freed[i] == before.freed[i]);
                }
            }
        } else {
            let kept = Waiting { id: entry.id, deps };
            assert(there.waiting =~= moved_entries(inner.waiting));
            assert(there.freed =~= moved_ids(inner.freed));
            assert forall|i: int| 0 <= i < inner.waiting.len() implies small(
                (#[trigger] inner.waiting[i]).id,
                bound,
            ) && ids_small(inner.waiting[i].deps, bound) by {
                if i < before.waiting.len() {
                    assert(inner.waiting[i] == before.waiting[i]);
                }
            }
            assert forall|x: usize| ids_of(inner.waiting).contains(x) implies ids_of(
                entries,
            ).contains(x) by {
                let k = choose|k: int|
                    0 <= k < ids_of(inner.waiting).len() && ids_of(inner.waiting)[k] == x;
                if k < before.waiting.len() {
                    assert(ids_of(before.waiting)[k] == x);
                    assert(ids_of(before.waiting).contains(x));
                }
            }
        }
    }
}

/// Where the first job waits for a job that does not end, it goes on
/// waiting when another job ends.
pub proof fn lemma_sweep_pinned(entries: Seq<Waiting>, id: usize, n: nat, last: usize)
    requires
        n <= entries.len(),
        pinned(entries, last),
        id != last,
    ensures
        pinned(sweep(entries, id, n).waiting, last),
        !sweep(entries, id, n).freed.contains(1),
    decreases n,
{
    let inner = sweep(entries, id, n);
    if n > 0 {
        lemma_sweep_pinned(entries, id, (n - 1) as nat, last);
        let before = sweep(entries, id, (n - 1) as nat);
        let entry = entries[n - 1];
        let deps = without(entry.deps, id, entry.deps.len());
        if entry.id == 1 {
            lemma_kept(entry.deps, id, entry.deps.len(), last);
            assert(entry.deps.subrange(0, entry.deps.len() as int) =~= entry.deps);
            assert(deps.contains(last));
        }
        if deps.len() == 0 {
            if inner.freed.contains(1) {
                let k = choose|k: int| 0 <= k < inner.freed.len() && inner.freed[k] == 1;
                if k < before.freed.len() {
                    assert(before.freed[k] == 1);
                    assert(before.freed.contains(1));
                }
            }
        } else {
            assert forall|i: int|
                0 <= i < inner.waiting.len() && (#[trigger] inner.waiting[i]).id
                    == 1 implies inner.waiting[i].deps.contains(last) by {
                if i < before.waiting.len() {
                    assert(inner.waiting[i] == before.waiting[i]);
                }
            }
        }
    }
}

/// An id other than the one that is taken out of a list stays in it.
pub proof fn lemma_kept(deps: Seq<usize>, id: usize, n: nat, x: usize)
    requires
        n <= deps.len(),
        x != id,
    ensures
        deps.subrange(0, n as int).contains(x) ==> without(deps, id, n).contains(x),
    decreases n,
{
    if n > 0 && deps.subrange(0, n as int).contains(x) {
        lemma_kept(deps, id, (n - 1) as nat, x);
        let before = without(deps, id, (n - 1) as nat);
        let inner = without(deps, id, n);
        let i = choose|i: int| 0 <= i < n && deps.subrange(0, n as int)[i] == x;
        if i < n - 1 {
            assert(deps.subrange(0, n - 1)[i] == x);
            let k = choose|k: int| 0 <= k < before.len() && before[k] == x;
            assert(inner[k] == x);
        } else {
            assert(inner[inner.len() - 1] == x);
        }
    }
}

/// When a job ends, the jobs that go on waiting and the jobs that are
/// freed were among the waiting jobs, and are as many as these.
pub proof fn lemma_sweep_within(entries: Seq<Waiting>, id: usize, n: nat)
    requires
        n <= entries.len(),
    ensures
        forall|x: usize|
            ids_of(sweep(entries, id, n).waiting).contains(x) ==> ids_of(entries).contains(x),
        forall|x: usize| sweep(entries, id, n).freed.contains(x) ==> ids_of(entries).contains(x),
        sweep(entries, id, n).waiting.len() + sweep(entries, id, n).freed.len() == n,
    decreases n,
{
    let inner = sweep(entries, id, n);
    if n > 0 {
        lemma_sweep_within(entries, id, (n - 1) as nat);
        let before = sweep(entries, id, (n - 1) as nat);
        let entry = entries[n - 1];
        assert(ids_of(entries)[n - 1] == entry.id);
        assert forall|x: usize| inner.freed.contains(x) implies ids_of(entries).contains(x) by {
            let k = choose|k: int| 0 <= k < inner.freed.len() && inner.freed[k] == x;
            if k < before.freed.len() {
                assert(before.freed[k] == x);
                assert(before.freed.contains(x));
            }
        }
        assert forall|x: usize| ids_of(inner.waiting).contains(x) implies ids_of(entries).contains(
            x,
        ) by {
            let k = choose|k: int|
                0 <= k < ids_of(inner.waiting).len() && ids_of(inner.waiting)[k] == x;
            if k < before.waiting.len() {
                assert(ids_of(before.waiting)[k] == x);
                assert(ids_of(before.waiting).contains(x));
            }
        }
    }
}

/// What the end of jobs leaves as it is, and what it can only take from:
/// the ids that were given out and the jobs in flight stay; a ready job
/// was ready or asleep; a sleeping job was asleep; a hibernating job
/// hibernated.
pub open spec fn settles(s: SchedulerView, r: SchedulerView) -> bool {
    &&& r.next_id == s.next_id
    &&& r.in_flight == s.in_flight
    &&& r.closed == s.closed
    &&& r.uid == s.uid
    &&& r.hibernating.len() <= s.hibernating.len()
    &&& forall|x: usize|
        #[trigger] r.queue.contains(x) ==> s.queue.contains(x) || ids_of(s.sleeping).contains(x)
    &&& forall|x: usize|
        #[trigger] ids_of(r.sleeping).contains(x) ==> ids_of(s.sleeping).contains(x)
    &&& forall|x: usize|
        #[trigger] ids_of(r.hibernating).contains(x) ==> ids_of(s.hibernating).contains(x)
}

/// The end of a job settles the scheduler.
pub proof fn lemma_completed_settles(s: SchedulerView, id: usize, depth: nat)
    ensures
        settles(s, completed(s, id, depth).0),
    decreases depth, 0nat,
{
    if depth > 0 {
        let asleep = sweep(s.sleeping, id, s.sleeping.len());
        let hibernating = sweep(s.hibernating, id, s.hibernating.len());
        lemma_sweep_within(s.sleeping, id, s.sleeping.len());
        lemma_sweep_within(s.hibernating, id, s.hibernating.len());
        let m = after_mark(s, id);
        let r = completed(s, id, depth).0;
        lemma_completed_all_settles(m, hibernating.freed, hibernating.freed.len(), (depth - 1) as nat);
        assert(r == completed_all(m, hibernating.freed, hibernating.freed.len(), (depth - 1) as nat).0);
        assert forall|x: usize| #[trigger] m.queue.contains(x) implies s.queue.contains(x) || ids_of(
            s.sleeping,
        ).contains(x) by {
            let k = choose|k: int| 0 <= k < m.queue.len() && m.queue[k] == x;
            if k < s.queue.len() {
                assert(s.queue[k] == x);
            } else {
                assert(asleep.freed[k - s.queue.len()] == x);
                assert(asleep.freed.contains(x));
            }
        }
        assert forall|x: usize| #[trigger] r.queue.contains(x) implies s.queue.contains(x) || ids_of(
            s.sleeping,
        ).contains(x) by {
            if m.queue.contains(x) {
            } else {
                assert(ids_of(m.sleeping).contains(x));
            }
        }
    }
}

/// The end of jobs, one after the other, settles the scheduler.
pub proof fn lemma_completed_all_settles(s: SchedulerView, ids: Seq<usize>, n: nat, depth: nat)
    ensures
        settles(s, completed_all(s, ids, n, depth).0),
    decreases depth, 1 + n,
{
    if n == 0 || n > ids.len() {
    } else {
        lemma_completed_all_settles(s, ids, (n - 1) as nat, depth);
        let before = completed_all(s, ids, (n - 1) as nat, depth).0;
        lemma_completed_settles(before, ids[n - 1], depth);
        let r = completed_all(s, ids, n, depth).0;
        assert(r == completed(before, ids[n - 1], depth).0);
        assert forall|x: usize| #[trigger] r.queue.contains(x) implies s.queue.contains(x) || ids_of(
            s.sleeping,
        ).contains(x) by {
            if before.queue.contains(x) {
            } else {
                assert(ids_of(before.sleeping).contains(x));
            }
        }
    }
}

/// The state after a job has been marked finished, before the hibernating
/// jobs that it freed end.
pub open spec fn after_mark(s: SchedulerView, id: usize) -> SchedulerView {
    let asleep = sweep(s.sleeping, id, s.sleeping.len());
    let hibernating = sweep(s.hibernating, id, s.hibernating.len());
    let raised = promote(s.watermark, s.gap.push(id));
    SchedulerView {
        sleeping: asleep.waiting,
        queue: s.queue + asleep.freed,
        hibernating: hibernating.waiting,
        watermark: raised.0,
        gap: raised.1,
        waiters: remove_first(s.waiters, id),
        ..s
    }
}

/// How deep the ends of hibernating jobs are followed makes no difference
/// once it is deeper than there are hibernating jobs.
pub proof fn lemma_depth(s: SchedulerView, id: usize, depth: nat)
    requires
        depth >= s.hibernating.len() + 1,
    ensures
        completed(s, id, depth) == completed(s, id, depth + 1),
    decreases depth, 0nat,
{
    let hibernating = sweep(s.hibernating, id, s.hibernating.len());
    lemma_sweep_within(s.hibernating, id, s.hibernating.len());
    let m = after_mark(s, id);
    let n = hibernating.freed.len();
    if n > 0 {
        lemma_depth_all(m, hibernating.freed, n, (depth - 1) as nat);
    }
}

/// The same of the ends of several jobs.
pub proof fn lemma_depth_all(s: SchedulerView, ids: Seq<usize>, n: nat, depth: nat)
    requires
        depth >= s.hibernating.len() + 1,
    ensures
        completed_all(s, ids, n, depth) == completed_all(s, ids, n, depth + 1),
    decreases depth, 1 + n,
{
    if n == 0 || n > ids.len() {
    } else {
        lemma_depth_all(s, ids, (n - 1) as nat, depth);
        let before = completed_all(s, ids, (n - 1) as nat, depth).0;
        lemma_completed_all_settles(s, ids, (n - 1) as nat, depth);
        lemma_depth(before, ids[n - 1], depth);
    }
}

/// The watermark stays where it is as long as the first job is not
/// finished.
pub proof fn lemma_promote_nothing(gap: Seq<usize>)
    requires
        !gap.contains(1),
    ensures
        promote(0, gap) == (0usize, gap),
{
    lemma_first_at(gap, 1, gap.len());
    match first_at(gap, 1, gap.len()) {
        Some(i) => {
            assert(gap[i] == 1);
            assert(gap.contains(1));
        },
        None => {},
    }
}

/// What holds of the inner scheduler as long as the inner call has not
/// ended, where `last` is the job that the inner call hibernates for: the
/// scheduler is tame, the first job waits for `last` where it hibernates,
/// and `last` does not hibernate.
pub open spec fn steady(s: SchedulerView, last: usize) -> bool {
    &&& tame(s)
    &&& pinned(s.hibernating, last)
    &&& !ids_of(s.hibernating).contains(last)
}

/// Taking the one job in flight out of the jobs in flight leaves none.
pub proof fn lemma_remove_only(id: usize)
    ensures
        remove_first(seq![id], id) == Seq::<usize>::empty(),
{
    let ids = seq![id];
    lemma_first_at(ids, id, 1);
    assert(ids[0] == id);
    assert(first_at(ids, id, 1) == Some(0int));
    assert(remove_first(ids, id) =~= Seq::<usize>::empty());
}

/// Marking a job finished is the same in both executions, as long as the
/// job is neither the inner call nor the job that it hibernates for.
pub proof fn lemma_mark_moved(s: SchedulerView, id: usize, last: usize)
    requires
        steady(s, last),
        small(id, s.next_id),
        id != 1,
        id != last,
    ensures
        after_mark(outer(s), moved(id)) == outer(after_mark(s, id)),
        steady(after_mark(s, id), last),
        after_mark(s, id).next_id == s.next_id,
        after_mark(s, id).in_flight == s.in_flight,
        sweep(outer(s).hibernating, moved(id), outer(s).hibernating.len()).freed == moved_ids(
            sweep(s.hibernating, id, s.hibernating.len()).freed,
        ),
        ids_small(sweep(s.hibernating, id, s.hibernating.len()).freed, s.next_id),
        !sweep(s.hibernating, id, s.hibernating.len()).freed.contains(1),
        !sweep(s.hibernating, id, s.hibernating.len()).freed.contains(last),
{
    let bound = s.next_id;
    let there = outer(s);
    let asleep = sweep(s.sleeping, id, s.sleeping.len());
    let hibernating = sweep(s.hibernating, id, s.hibernating.len());
    lemma_moved(id, id, bound);
    lemma_sweep_moved(s.sleeping, id, s.sleeping.len(), bound);
    lemma_sweep_moved(s.hibernating, id, s.hibernating.len(), bound);
    lemma_sweep_pinned(s.hibernating, id, s.hibernating.len(), last);
    // The two jobs of the outer execution go on waiting.
    assert(without(seq![2usize], moved(id), 1) =~= seq![2usize]) by {
        assert(without(seq![2usize], moved(id), 0) =~= Seq::<usize>::empty());
    }
    assert(without(seq![3usize], moved(id), 1) =~= seq![3usize]) by {
        assert(without(seq![3usize], moved(id), 0) =~= Seq::<usize>::empty());
    }
    lemma_sweep_head(handing_on(), moved_entries(s.sleeping), moved(id), s.sleeping.len());
    lemma_sweep_head(outer_call(), moved_entries(s.hibernating), moved(id), s.hibernating.len());
    let asleep_there = sweep(there.sleeping, moved(id), there.sleeping.len());
    let hibernating_there = sweep(there.hibernating, moved(id), there.hibernating.len());
    assert(asleep_there.waiting =~= seq![handing_on()] + moved_entries(asleep.waiting));
    assert(asleep_there.freed == moved_ids(asleep.freed));
    assert(hibernating_there.waiting =~= seq![outer_call()] + moved_entries(hibernating.waiting));
    assert(hibernating_there.freed == moved_ids(hibernating.freed));
    // The watermark stays.
    let gap = s.gap.push(id);
    assert(!gap.contains(1)) by {
        if gap.contains(1) {
            let k = choose|k: int| 0 <= k < gap.len() && gap[k] == 1;
            if k < s.gap.len() {
                assert(s.gap[k] == 1);
            }
        }
    }
    lemma_promote_nothing(gap);
    let gap_there = there.gap.push(moved(id));
    assert(gap_there =~= moved_ids(gap));
    assert(ids_small(gap, bound)) by {
        assert forall|i: int| 0 <= i < gap.len() implies small(#[trigger] gap[i], bound) by {
            if i < s.gap.len() {
                assert(gap[i] == s.gap[i]);
            }
        }
    }
    lemma_moved_contains(gap, id, bound);
    lemma_promote_nothing(gap_there);
    // Nobody waits.
    assert(remove_first(s.waiters, id) =~= s.waiters) by {
        lemma_first_at(s.waiters, id, s.waiters.len());
    }
    assert(remove_first(there.waiters, moved(id)) =~= there.waiters) by {
        lemma_first_at(there.waiters, moved(id), there.waiters.len());
    }
    let m = after_mark(s, id);
    let m_there = after_mark(there, moved(id));
    assert(m_there.queue =~= moved_ids(m.queue));
    assert(m_there.gap =~= moved_ids(m.gap));
    assert(m_there.sleeping =~= outer(m).sleeping);
    assert(m_there.hibernating =~= outer(m).hibernating);
    assert(m_there == outer(m));
    assert(ids_small(m.queue, bound)) by {
        assert forall|i: int| 0 <= i < m.queue.len() implies small(#[trigger] m.queue[i], bound) by {
            if i < s.queue.len() {
                assert(m.queue[i] == s.queue[i]);
            } else {
                assert(m.queue[i] == asleep.freed[i - s.queue.len()]);
            }
        }
    }
    assert(!hibernating.freed.contains(last)) by {
        if hibernating.freed.contains(last) {
            assert(ids_of(s.hibernating).contains(last));
        }
    }
    assert(!ids_of(m.hibernating).contains(last)) by {
        if ids_of(m.hibernating).contains(last) {
            assert(ids_of(s.hibernating).contains(last));
        }
    }
}

/// The end of a job is the same in both executions, as long as the job is
/// neither the inner call nor the job that it hibernates for.
pub proof fn lemma_completed_moved(s: SchedulerView, id: usize, depth: nat, last: usize)
    requires
        steady(s, last),
        small(id, s.next_id),
        id != 1,
        id != last,
    ensures
        completed(outer(s), moved(id), depth).0 == outer(completed(s, id, depth).0),
        steady(completed(s, id, depth).0, last),
        completed(s, id, depth).0.next_id == s.next_id,
        completed(s, id, depth).0.in_flight == s.in_flight,
    decreases depth, 0nat,
{
    if depth > 0 {
        lemma_mark_moved(s, id, last);
        let freed = sweep(s.hibernating, id, s.hibernating.len()).freed;
        let m = after_mark(s, id);
        lemma_completed_all_moved(m, freed, freed.len(), (depth - 1) as nat, last);
        assert(completed(s, id, depth).0 == completed_all(
            m,
            freed,
            freed.len(),
            (depth - 1) as nat,
        ).0);
        let there = outer(s);
        let freed_there = sweep(there.hibernating, moved(id), there.hibernating.len()).freed;
        assert(completed(there, moved(id), depth).0 == completed_all(
            after_mark(there, moved(id)),
            freed_there,
            freed_there.len(),
            (depth - 1) as nat,
        ).0);
    }
}

/// The ends of several jobs are the same in both executions.
pub proof fn lemma_completed_all_moved(
    s: SchedulerView,
    ids: Seq<usize>,
    n: nat,
    depth: nat,
    last: usize,
)
    requires
        steady(s, last),
        n <= ids.len(),
        ids_small(ids, s.next_id),
        !ids.contains(1),
        !ids.contains(last),
    ensures
        completed_all(outer(s), moved_ids(ids), n, depth).0 == outer(
            completed_all(s, ids, n, depth).0,
        ),
        steady(completed_all(s, ids, n, depth).0, last),
        completed_all(s, ids, n, depth).0.next_id == s.next_id,
        completed_all(s, ids, n, depth).0.in_flight == s.in_flight,
    decreases depth, 1 + n,
{
    if n > 0 {
        lemma_completed_all_moved(s, ids, (n - 1) as nat, depth, last);
        let before = completed_all(s, ids, (n - 1) as nat, depth).0;
        assert(ids.contains(ids[n - 1]));
        lemma_completed_moved(before, ids[n - 1], depth, last);
        assert(moved_ids(ids)[n - 1] == moved(ids[n - 1]));
    }
}

/// Submitting a job is the same in both executions.
pub proof fn lemma_submitted_moved(s: SchedulerView, deps: Seq<usize>, last: usize)
    requires
        steady(s, last),
        ids_small(deps, s.next_id),
        s.next_id + 3 <= usize::MAX,
    ensures
        submitted(outer(s), moved_ids(deps)) == outer(submitted(s, deps)),
        steady(submitted(s, deps), last),
        submitted(s, deps).next_id == s.next_id + 1,
        submitted(s, deps).in_flight == s.in_flight,
        submitted(s, deps).hibernating == s.hibernating,
{
    let r = submitted(s, deps);
    let there = outer(s);
    let r_there = submitted(there, moved_ids(deps));
    let waits_for = live(s, deps, deps.len());
    lemma_live_moved(s, deps, deps.len());
    assert(moved_ids(deps).len() == deps.len());
    assert(moved_ids(waits_for).len() == waits_for.len());
    lemma_moved(s.next_id, s.next_id, (s.next_id + 1) as usize);
    if waits_for.len() == 0 {
        assert(r_there.queue =~= moved_ids(r.queue));
        assert(r_there == outer(r));
    } else {
        assert(r_there.sleeping =~= outer(r).sleeping);
        assert(r_there == outer(r));
        assert forall|i: int| 0 <= i < r.sleeping.len() implies small(
            (#[trigger] r.sleeping[i]).id,
            r.next_id,
        ) && ids_small(r.sleeping[i].deps, r.next_id) by {
            if i < s.sleeping.len() {
                assert(r.sleeping[i] == s.sleeping[i]);
            }
        }
    }
    assert(ids_small(r.queue, r.next_id)) by {
        assert forall|i: int| 0 <= i < r.queue.len() implies small(#[trigger] r.queue[i], r.next_id) by {
            if i < s.queue.len() {
                assert(r.queue[i] == s.queue[i]);
            }
        }
    }
}

/// Handing the first ready job to a worker is the same in both
/// executions.
pub proof fn lemma_dispatched_moved(s: SchedulerView, last: usize)
    requires
        steady(s, last),
        s.queue.len() > 0,
        s.in_flight.len() == 0,
    ensures
        dispatched(outer(s)) == outer(dispatched(s)),
        steady(dispatched(s), last),
        dispatched(s).in_flight == seq![s.queue[0]],
        dispatched(s).next_id == s.next_id,
        small(s.queue[0], s.next_id),
{
    let r = dispatched(s);
    let r_there = dispatched(outer(s));
    assert(r_there.queue =~= moved_ids(r.queue));
    assert(r_there.in_flight =~= moved_ids(r.in_flight));
    assert(r.in_flight =~= seq![s.queue[0]]);
    assert(r_there == outer(r));
    assert forall|i: int| 0 <= i < r.queue.len() implies small(#[trigger] r.queue[i], r.next_id) by {
        assert(r.queue[i] == s.queue[i + 1]);
    }
}

/// The end of the job in flight is the same in both executions, as long as
/// the job is neither the inner call nor the job that it hibernates for.
pub proof fn lemma_finished_moved(s: SchedulerView, id: usize, last: usize)
    requires
        steady(s, last),
        s.in_flight == seq![id],
        id != 1,
        id != last,
    ensures
        finished(outer(s), moved(id)).0 == outer(finished(s, id).0),
        steady(finished(s, id).0, last),
        finished(s, id).0.next_id == s.next_id,
        finished(s, id).0.in_flight.len() == 0,
{
    let out = SchedulerView { in_flight: remove_first(s.in_flight, id), ..s };
    let there = outer(s);
    let out_there = SchedulerView { in_flight: remove_first(there.in_flight, moved(id)), ..there };
    lemma_remove_only(id);
    lemma_remove_only(moved(id));
    assert(s.in_flight[0] == id);
    assert(there.in_flight =~= seq![moved(id)]);
    assert(out_there.in_flight =~= moved_ids(out.in_flight));
    assert(out_there == outer(out));
    let depth = (s.hibernating.len() + 1) as nat;
    lemma_depth(out, id, depth);
    lemma_completed_moved(out, id, depth + 1, last);
    assert(there.hibernating.len() == s.hibernating.len() + 1);
}

/// Hibernating for a job that is not finished is the same in both
/// executions.
pub proof fn lemma_hibernated_moved(s: SchedulerView, id: usize, child: usize, last: usize)
    requires
        steady(s, last),
        s.in_flight == seq![id],
        small(child, s.next_id),
        !done(s, child),
        id != last,
        id == 1 ==> child == last,
    ensures
        hibernated(outer(s), moved(id), seq![moved(child)]).0 == outer(
            hibernated(s, id, seq![child]).0,
        ),
        steady(hibernated(s, id, seq![child]).0, last),
        hibernated(s, id, seq![child]).0.next_id == s.next_id,
        hibernated(s, id, seq![child]).0.in_flight.len() == 0,
        hibernated(s, id, seq![child]).0.queue == s.queue,
        hibernated(s, id, seq![child]).0.sleeping == s.sleeping,
{
    let deps = seq![child];
    let there = outer(s);
    assert(moved_ids(deps) =~= seq![moved(child)]);
    lemma_live_moved(s, deps, 1);
    assert(live(s, deps, 0) =~= Seq::<usize>::empty());
    assert(live(s, deps, 1) =~= deps);
    lemma_remove_only(id);
    lemma_remove_only(moved(id));
    assert(s.in_flight[0] == id);
    assert(there.in_flight =~= seq![moved(id)]);
    let r = hibernated(s, id, deps).0;
    let r_there = hibernated(there, moved(id), seq![moved(child)]).0;
    assert(r_there.in_flight =~= moved_ids(r.in_flight));
    assert(r_there.hibernating =~= outer(r).hibernating);
    assert(r_there == outer(r));
    let entry = Waiting { id, deps };
    assert(deps[0] == child);
    assert forall|i: int| 0 <= i < r.hibernating.len() implies small(
        (#[trigger] r.hibernating[i]).id,
        r.next_id,
    ) && ids_small(r.hibernating[i].deps, r.next_id) by {
        if i < s.hibernating.len() {
            assert(r.hibernating[i] == s.hibernating[i]);
        }
    }
    assert forall|i: int|
        0 <= i < r.hibernating.len() && (#[trigger] r.hibernating[i]).id
            == 1 implies r.hibernating[i].deps.contains(last) by {
        if i < s.hibernating.len() {
            assert(r.hibernating[i] == s.hibernating[i]);
        } else {
            assert(deps.contains(child));
        }
    }
    assert(!ids_of(r.hibernating).contains(last)) by {
        if ids_of(r.hibernating).contains(last) {
            let k = choose|k: int|
                0 <= k < ids_of(r.hibernating).len() && ids_of(r.hibernating)[k] == last;
            if k < s.hibernating.len() {
                assert(ids_of(s.hibernating)[k] == last);
            }
        }
    }
}

} // verus!
