//! What holds of a scheduler at any moment.

use crate::runtime::multithreading::model::{
    awaited, completed, completed_all, disjoint, dispatched, done, finished, finished_sound,
    first_at, hibernated, ids_of, initial, lemma_first_at, live, pending, promote, remove_at,
    remove_first, states_distinct, submitted, sweep, waits_sound, wf, without, SchedulerView,
    Swept, Waiting,
};
use vstd::prelude::*;

verus! {

/// A list without duplicates stays so when an id that it does not hold is
/// appended.
pub proof fn lemma_push_distinct(ids: Seq<usize>, x: usize)
    requires
        ids.no_duplicates(),
        !ids.contains(x),
    ensures
        ids.push(x).no_duplicates(),
        forall|y: usize| ids.push(x).contains(y) <==> ids.contains(y) || y == x,
{
    let after = ids.push(x);
    assert forall|y: usize| after.contains(y) <==> ids.contains(y) || y == x by {
        if after.contains(y) {
            let i = choose|i: int| 0 <= i < after.len() && after[i] == y;
            if i < ids.len() {
                assert(ids[i] == y);
            }
        }
        if ids.contains(y) {
            let i = choose|i: int| 0 <= i < ids.len() && ids[i] == y;
            assert(after[i] == y);
        }
        if y == x {
            assert(after[ids.len() as int] == x);
        }
    }
}

/// What a list holds after an id has been appended.
pub proof fn lemma_push_contains(ids: Seq<usize>, x: usize)
    ensures
        forall|y: usize| ids.push(x).contains(y) <==> ids.contains(y) || y == x,
{
    let after = ids.push(x);
    assert forall|y: usize| after.contains(y) <==> ids.contains(y) || y == x by {
        if after.contains(y) {
            let i = choose|i: int| 0 <= i < after.len() && after[i] == y;
            if i < ids.len() {
                assert(ids[i] == y);
            }
        }
        if ids.contains(y) {
            let i = choose|i: int| 0 <= i < ids.len() && ids[i] == y;
            assert(after[i] == y);
        }
        if y == x {
            assert(after[ids.len() as int] == x);
        }
    }
}

/// A list without duplicates stays so when the id at an index is taken
/// out, and then holds every other id that it held.
pub proof fn lemma_remove_at(ids: Seq<usize>, at: int)
    requires
        ids.no_duplicates(),
        0 <= at < ids.len(),
    ensures
        remove_at(ids, at).no_duplicates(),
        forall|y: usize| remove_at(ids, at).contains(y) <==> ids.contains(y) && y != ids[at],
        remove_at(ids, at).len() == ids.len() - 1,
{
    let after = remove_at(ids, at);
    assert forall|i: int, j: int| 0 <= i < j < after.len() implies after[i] != after[j] by {
        let oi = if i < at { i } else { i + 1 };
        let oj = if j < at { j } else { j + 1 };
        assert(after[i] == ids[oi]);
        assert(after[j] == ids[oj]);
    }
    assert forall|y: usize| after.contains(y) <==> ids.contains(y) && y != ids[at] by {
        if after.contains(y) {
            let i = choose|i: int| 0 <= i < after.len() && after[i] == y;
            let oi = if i < at { i } else { i + 1 };
            assert(after[i] == ids[oi]);
        }
        if ids.contains(y) && y != ids[at] {
            let i = choose|i: int| 0 <= i < ids.len() && ids[i] == y;
            let ni = if i < at { i } else { i - 1 };
            assert(after[ni] == y);
        }
    }
}

/// A list without duplicates stays so when an id is taken out, and then
/// holds every other id that it held.
pub proof fn lemma_remove_first(ids: Seq<usize>, id: usize)
    requires
        ids.no_duplicates(),
    ensures
        remove_first(ids, id).no_duplicates(),
        forall|y: usize| remove_first(ids, id).contains(y) <==> ids.contains(y) && y != id,
{
    lemma_first_at(ids, id, ids.len());
    match first_at(ids, id, ids.len()) {
        Some(i) => {
            lemma_remove_at(ids, i);
        },
        None => {
            assert forall|y: usize| ids.contains(y) implies y != id by {
                let i = choose|i: int| 0 <= i < ids.len() && ids[i] == y;
            }
        },
    }
}

/// Two lists without duplicates and without a common id make a list
/// without duplicates, which holds what either holds.
pub proof fn lemma_concat_distinct(a: Seq<usize>, b: Seq<usize>)
    requires
        a.no_duplicates(),
        b.no_duplicates(),
        disjoint(a, b),
    ensures
        (a + b).no_duplicates(),
        forall|y: usize| (a + b).contains(y) <==> a.contains(y) || b.contains(y),
{
    let all = a + b;
    assert forall|i: int, j: int| 0 <= i < j < all.len() implies all[i] != all[j] by {
        if i < a.len() && j >= a.len() {
            assert(a.contains(all[i]));
            assert(b[j - a.len()] == all[j]);
            assert(b.contains(all[j]));
        }
    }
    assert forall|y: usize| all.contains(y) <==> a.contains(y) || b.contains(y) by {
        if all.contains(y) {
            let i = choose|i: int| 0 <= i < all.len() && all[i] == y;
            if i < a.len() {
                assert(a[i] == y);
            } else {
                assert(b[i - a.len()] == y);
            }
        }
        if a.contains(y) {
            let i = choose|i: int| 0 <= i < a.len() && a[i] == y;
            assert(all[i] == y);
        }
        if b.contains(y) {
            let i = choose|i: int| 0 <= i < b.len() && b[i] == y;
            assert(all[a.len() + i] == y);
        }
    }
}

/// What is left of a list after an id has been taken out of it is in the
/// list and is not the id.
pub proof fn lemma_without(deps: Seq<usize>, id: usize, n: nat)
    requires
        n <= deps.len(),
    ensures
        forall|k: int|
            0 <= k < without(deps, id, n).len() ==> deps.contains(
                #[trigger] without(deps, id, n)[k],
            ) && without(deps, id, n)[k] != id,
    decreases n,
{
    if n > 0 {
        lemma_without(deps, id, (n - 1) as nat);
        let before = without(deps, id, (n - 1) as nat);
        let after = without(deps, id, n);
        assert forall|k: int| 0 <= k < after.len() implies deps.contains(#[trigger] after[k])
            && after[k] != id by {
            if k < before.len() {
                assert(after[k] == before[k]);
            } else {
                assert(deps[n - 1] == after[k]);
            }
        }
    }
}

/// The jobs of a list that are not finished are not finished.
pub proof fn lemma_live(s: SchedulerView, deps: Seq<usize>, n: nat)
    requires
        n <= deps.len(),
    ensures
        forall|k: int| 0 <= k < live(s, deps, n).len() ==> !done(s, #[trigger] live(s, deps, n)[k]),
    decreases n,
{
    if n > 0 {
        lemma_live(s, deps, (n - 1) as nat);
        let before = live(s, deps, (n - 1) as nat);
        let after = live(s, deps, n);
        assert forall|k: int| 0 <= k < after.len() implies !done(s, #[trigger] after[k]) by {
            if k < before.len() {
                assert(after[k] == before[k]);
            }
        }
    }
}

/// The ids of the first `n` jobs of a list.
pub open spec fn first_ids(entries: Seq<Waiting>, n: nat) -> Seq<usize> {
    ids_of(entries).subrange(0, n as int)
}

/// Whether the jobs that still wait and the jobs that were freed are, taken
/// together, the jobs of the given ids.
pub open spec fn split_of(r: Swept, ids: Seq<usize>) -> bool {
    forall|y: usize|
        (ids_of(r.waiting).contains(y) || r.freed.contains(y)) <==> #[trigger] ids.contains(y)
}

/// When a job ends, every waiting job of a list either still waits or is
/// freed, and none is both or comes twice.
pub proof fn lemma_sweep_ids(entries: Seq<Waiting>, id: usize, n: nat)
    requires
        n <= entries.len(),
        ids_of(entries).no_duplicates(),
    ensures
        ids_of(sweep(entries, id, n).waiting).no_duplicates(),
        sweep(entries, id, n).freed.no_duplicates(),
        disjoint(ids_of(sweep(entries, id, n).waiting), sweep(entries, id, n).freed),
        split_of(sweep(entries, id, n), first_ids(entries, n)),
        sweep(entries, id, n).waiting.len() + sweep(entries, id, n).freed.len() == n,
    decreases n,
{
    let r = sweep(entries, id, n);
    if n == 0 {
        assert(ids_of(r.waiting) =~= Seq::<usize>::empty());
        assert(first_ids(entries, n) =~= Seq::<usize>::empty());
        assert(r.freed =~= Seq::<usize>::empty());
    } else {
        lemma_sweep_ids(entries, id, (n - 1) as nat);
        let before = sweep(entries, id, (n - 1) as nat);
        let entry = entries[n - 1];
        let earlier = first_ids(entries, (n - 1) as nat);
        assert(first_ids(entries, n) =~= earlier.push(entry.id));
        assert(!earlier.contains(entry.id)) by {
            if earlier.contains(entry.id) {
                let i = choose|i: int| 0 <= i < earlier.len() && earlier[i] == entry.id;
                assert(ids_of(entries)[i] == ids_of(entries)[n - 1]);
            }
        }
        lemma_push_contains(earlier, entry.id);
        let deps = without(entry.deps, id, entry.deps.len());
        assert(!before.freed.contains(entry.id));
        assert(!ids_of(before.waiting).contains(entry.id));
        if deps.len() == 0 {
            lemma_push_distinct(before.freed, entry.id);
            assert forall|y: usize|
                (ids_of(r.waiting).contains(y) || r.freed.contains(y)) <==> #[trigger] first_ids(
                    entries,
                    n,
                ).contains(y) by {
                assert((ids_of(before.waiting).contains(y) || before.freed.contains(y))
                    <==> earlier.contains(y));
            }
        } else {
            assert(ids_of(r.waiting) =~= ids_of(before.waiting).push(entry.id));
            lemma_push_distinct(ids_of(before.waiting), entry.id);
            assert forall|y: usize|
                (ids_of(r.waiting).contains(y) || r.freed.contains(y)) <==> #[trigger] first_ids(
                    entries,
                    n,
                ).contains(y) by {
                assert((ids_of(before.waiting).contains(y) || before.freed.contains(y))
                    <==> earlier.contains(y));
            }
        }
    }
}

/// When a job ends, the jobs that still wait for others wait for jobs that
/// are unfinished even after the job has been marked finished.
pub proof fn lemma_sweep_sound(
    s: SchedulerView,
    after: SchedulerView,
    entries: Seq<Waiting>,
    id: usize,
    n: nat,
)
    requires
        n <= entries.len(),
        waits_sound(s, entries),
        forall|y: usize| done(after, y) ==> done(s, y) || y == id,
    ensures
        waits_sound(after, sweep(entries, id, n).waiting),
    decreases n,
{
    if n > 0 {
        lemma_sweep_sound(s, after, entries, id, (n - 1) as nat);
        let before = sweep(entries, id, (n - 1) as nat);
        let r = sweep(entries, id, n);
        let entry = entries[n - 1];
        let deps = without(entry.deps, id, entry.deps.len());
        lemma_without(entry.deps, id, entry.deps.len());
        if deps.len() > 0 {
            assert forall|i: int| 0 <= i < r.waiting.len() implies {
                &&& (#[trigger] r.waiting[i]).deps.len() > 0
                &&& forall|k: int|
                    0 <= k < r.waiting[i].deps.len() ==> !done(after, #[trigger] r.waiting[i].deps[k])
            } by {
                if i < before.waiting.len() {
                    assert(r.waiting[i] == before.waiting[i]);
                } else {
                    assert forall|k: int| 0 <= k < deps.len() implies !done(
                        after,
                        #[trigger] deps[k],
                    ) by {
                        assert(entry.deps.contains(deps[k]));
                        let j = choose|j: int| 0 <= j < entry.deps.len() && entry.deps[j] == deps[k];
                        assert(!done(s, entry.deps[j]));
                    }
                }
            }
        }
    }
}

/// Raising the watermark changes nothing in which jobs are finished, and
/// keeps the finished ids as they should be.
pub proof fn lemma_promote(watermark: usize, gap: Seq<usize>, next_id: usize)
    requires
        watermark < next_id,
        gap.no_duplicates(),
        forall|i: int| 0 <= i < gap.len() ==> watermark < #[trigger] gap[i] < next_id,
    ensures
        watermark <= promote(watermark, gap).0 < next_id,
        promote(watermark, gap).1.no_duplicates(),
        forall|i: int|
            0 <= i < promote(watermark, gap).1.len() ==> promote(watermark, gap).0 < (
            #[trigger] promote(watermark, gap).1[i]) < next_id,
        forall|y: usize|
            (y <= promote(watermark, gap).0 || promote(watermark, gap).1.contains(y)) <==> (y
                <= watermark || gap.contains(y)),
    decreases gap.len(),
{
    if watermark < usize::MAX {
        let next = (watermark + 1) as usize;
        lemma_first_at(gap, next, gap.len());
        match first_at(gap, next, gap.len()) {
            Some(i) => {
                let rest = remove_at(gap, i);
                lemma_remove_at(gap, i);
                assert(gap.contains(next));
                assert(next < next_id);
                assert forall|k: int| 0 <= k < rest.len() implies next < #[trigger] rest[k]
                    < next_id by {
                    assert(rest.contains(rest[k]));
                    assert(gap.contains(rest[k]));
                    let j = choose|j: int| 0 <= j < gap.len() && gap[j] == rest[k];
                    assert(watermark < gap[j] < next_id);
                }
                lemma_promote(next, rest, next_id);
            },
            None => {
                assert forall|k: int| 0 <= k < gap.len() implies watermark < #[trigger] gap[k]
                    < next_id by {}
            },
        }
    }
}

} // verus!

verus! {

/// Whether a job is in none of the states and not finished, and its id has
/// been given out.
pub open spec fn free(s: SchedulerView, id: usize) -> bool {
    !pending(s, id) && !done(s, id) && id < s.next_id
}

/// What holds between a state `s` and a later state `r` that was reached by
/// ending the jobs `ended` and, with them, hibernating jobs that waited for
/// nothing else, where `notes` are the notifications:
///
/// the invariant holds; no job became pending; no job began to hibernate;
/// finished jobs stayed finished; only the ended jobs and jobs that
/// hibernated became finished; nobody began to wait; and every
/// notification is for a job that somebody waited for, that is finished
/// now, and that nobody waits for any more; no job is notified twice.
pub open spec fn ends(
    s: SchedulerView,
    r: SchedulerView,
    notes: Seq<usize>,
    ended: Seq<usize>,
) -> bool {
    &&& wf(r)
    &&& r.next_id == s.next_id
    &&& r.uid == s.uid
    &&& r.closed == s.closed
    &&& forall|x: usize| #[trigger] pending(r, x) ==> pending(s, x)
    &&& forall|x: usize|
        #[trigger] ids_of(r.hibernating).contains(x) ==> ids_of(s.hibernating).contains(x)
    &&& forall|x: usize| done(s, x) ==> #[trigger] done(r, x)
    &&& forall|x: usize|
        #[trigger] done(r, x) ==> done(s, x) || ended.contains(x) || ids_of(
            s.hibernating,
        ).contains(x)
    &&& forall|x: usize| #[trigger] ended.contains(x) ==> done(r, x)
    &&& forall|x: usize| #[trigger] r.waiters.contains(x) ==> s.waiters.contains(x)
    &&& notes.no_duplicates()
    &&& forall|x: usize|
        #[trigger] notes.contains(x) ==> s.waiters.contains(x) && done(r, x)
            && !r.waiters.contains(x)
}

/// Nothing happening is a way of ending no job.
pub proof fn lemma_ends_nothing(s: SchedulerView)
    requires
        wf(s),
    ensures
        ends(s, s, Seq::empty(), Seq::empty()),
{
}

/// One run of ends after another is a run of ends.
pub proof fn lemma_ends_compose(
    s: SchedulerView,
    m: SchedulerView,
    r: SchedulerView,
    first: Seq<usize>,
    second: Seq<usize>,
    ended_first: Seq<usize>,
    ended_second: Seq<usize>,
)
    requires
        ends(s, m, first, ended_first),
        ends(m, r, second, ended_second),
    ensures
        ends(s, r, first + second, ended_first + ended_second),
{
    let notes = first + second;
    let ended = ended_first + ended_second;
    assert forall|x: usize| #[trigger] pending(r, x) implies pending(s, x) by {
        assert(pending(m, x));
    }
    assert forall|x: usize| #[trigger] ids_of(r.hibernating).contains(x) implies ids_of(
        s.hibernating,
    ).contains(x) by {
        assert(ids_of(m.hibernating).contains(x));
    }
    assert forall|x: usize| done(s, x) implies #[trigger] done(r, x) by {
        assert(done(m, x));
    }
    assert forall|x: usize| #[trigger] ended.contains(x) implies done(r, x) by {
        let i = choose|i: int| 0 <= i < ended.len() && ended[i] == x;
        if i < ended_first.len() {
            assert(ended_first[i] == x);
            assert(ended_first.contains(x));
            assert(done(m, x));
        } else {
            assert(ended_second[i - ended_first.len()] == x);
            assert(ended_second.contains(x));
        }
    }
    assert forall|x: usize| #[trigger] done(r, x) implies done(s, x) || ended.contains(x) || ids_of(
        s.hibernating,
    ).contains(x) by {
        if ended_second.contains(x) {
            let i = choose|i: int| 0 <= i < ended_second.len() && ended_second[i] == x;
            assert(ended[ended_first.len() + i] == x);
        } else if ids_of(m.hibernating).contains(x) {
        } else {
            assert(done(m, x));
            if ended_first.contains(x) {
                let i = choose|i: int| 0 <= i < ended_first.len() && ended_first[i] == x;
                assert(ended[i] == x);
            }
        }
    }
    assert forall|x: usize| #[trigger] r.waiters.contains(x) implies s.waiters.contains(x) by {
        assert(m.waiters.contains(x));
    }
    assert forall|i: int, j: int| 0 <= i < j < notes.len() implies notes[i] != notes[j] by {
        if i < first.len() && j >= first.len() {
            assert(first.contains(notes[i]));
            assert(second[j - first.len()] == notes[j]);
            assert(second.contains(notes[j]));
        }
    }
    assert forall|x: usize| #[trigger] notes.contains(x) implies s.waiters.contains(x) && done(
        r,
        x,
    ) && !r.waiters.contains(x) by {
        let i = choose|i: int| 0 <= i < notes.len() && notes[i] == x;
        if i < first.len() {
            assert(first[i] == x);
            assert(first.contains(x));
            assert(done(m, x));
            if r.waiters.contains(x) {
                assert(m.waiters.contains(x));
            }
        } else {
            assert(second[i - first.len()] == x);
            assert(second.contains(x));
            assert(m.waiters.contains(x));
        }
    }
}

/// The ids of all jobs of a list are its first ids, all taken.
proof fn lemma_first_ids_all(entries: Seq<Waiting>)
    ensures
        first_ids(entries, entries.len()) == ids_of(entries),
{
    assert(first_ids(entries, entries.len()) =~= ids_of(entries));
}

/// The state after a job has been marked finished, before the hibernating
/// jobs that it freed end.
pub open spec fn marked(s: SchedulerView, id: usize) -> SchedulerView {
    let asleep = sweep(s.sleeping, id, s.sleeping.len());
    let hibernating = sweep(s.hibernating, id, s.hibernating.len());
    let raised = promote(s.watermark, s.gap.push(id));
    SchedulerView {
        sleeping: asleep.waiting,
        queue: s.queue + asleep.freed,
        hibernating: hibernating.waiting,
        watermark: raised.0,
        gap: raised.1,
        waiters: remove_first(s.waiters, id),
        ..s
    }
}

/// Marking a free job finished keeps the invariant, makes that job and no
/// other finished, and leaves the hibernating jobs that it freed free.
pub proof fn lemma_marked(s: SchedulerView, id: usize)
    requires
        wf(s),
        free(s, id),
    ensures
        ends(s, marked(s, id), Seq::empty(), seq![id]),
        !marked(s, id).waiters.contains(id),
        sweep(s.hibernating, id, s.hibernating.len()).freed.no_duplicates(),
        disjoint(
            sweep(s.hibernating, id, s.hibernating.len()).freed,
            ids_of(marked(s, id).hibernating),
        ),
        forall|k: int|
            0 <= k < sweep(s.hibernating, id, s.hibernating.len()).freed.len() ==> free(
                marked(s, id),
                #[trigger] sweep(s.hibernating, id, s.hibernating.len()).freed[k],
            ),
        forall|x: usize|
            sweep(s.hibernating, id, s.hibernating.len()).freed.contains(x) ==> ids_of(
                s.hibernating,
            ).contains(x),
        marked(s, id).hibernating.len() + sweep(s.hibernating, id, s.hibernating.len()).freed.len()
            == s.hibernating.len(),
{
    let m = marked(s, id);
    let asleep = sweep(s.sleeping, id, s.sleeping.len());
    let hib = sweep(s.hibernating, id, s.hibernating.len());
    let sl = ids_of(s.sleeping);
    let hi = ids_of(s.hibernating);
    lemma_sweep_ids(s.sleeping, id, s.sleeping.len());
    lemma_sweep_ids(s.hibernating, id, s.hibernating.len());
    lemma_first_ids_all(s.sleeping);
    lemma_first_ids_all(s.hibernating);
    // Which jobs are finished.
    assert(!s.gap.contains(id));
    lemma_push_distinct(s.gap, id);
    let gap = s.gap.push(id);
    assert forall|i: int| 0 <= i < gap.len() implies s.watermark < #[trigger] gap[i]
        < s.next_id by {
        if i < s.gap.len() {
            assert(gap[i] == s.gap[i]);
        }
    }
    lemma_promote(s.watermark, gap, s.next_id);
    assert forall|y: usize| done(m, y) <==> done(s, y) || y == id by {
        assert((y <= m.watermark || m.gap.contains(y)) <==> (y <= s.watermark || gap.contains(
            y,
        )));
    }
    // Where the jobs are.
    assert forall|x: usize| asleep.freed.contains(x) implies sl.contains(x) by {
        assert(split_of(asleep, sl));
    }
    assert forall|x: usize| ids_of(asleep.waiting).contains(x) implies sl.contains(x) by {
        assert(split_of(asleep, sl));
    }
    assert forall|x: usize| hib.freed.contains(x) implies hi.contains(x) by {
        assert(split_of(hib, hi));
    }
    assert forall|x: usize| ids_of(hib.waiting).contains(x) implies hi.contains(x) by {
        assert(split_of(hib, hi));
    }
    assert(disjoint(s.queue, asleep.freed)) by {
        assert forall|x: usize| !(s.queue.contains(x) && asleep.freed.contains(x)) by {
            if asleep.freed.contains(x) {
                assert(sl.contains(x));
            }
        }
    }
    lemma_concat_distinct(s.queue, asleep.freed);
    assert forall|x: usize| #[trigger] pending(m, x) implies pending(s, x) by {
        if ids_of(m.sleeping).contains(x) {
            assert(sl.contains(x));
        } else if m.queue.contains(x) {
            if asleep.freed.contains(x) {
                assert(sl.contains(x));
            }
        } else if ids_of(m.hibernating).contains(x) {
            assert(hi.contains(x));
        }
    }
    assert(states_distinct(m)) by {
        assert forall|x: usize| !(ids_of(m.sleeping).contains(x) && m.queue.contains(x)) by {
            if ids_of(m.sleeping).contains(x) && m.queue.contains(x) {
                assert(sl.contains(x));
            }
        }
        assert forall|x: usize| !(ids_of(m.sleeping).contains(x) && m.in_flight.contains(x)) by {
            if ids_of(m.sleeping).contains(x) {
                assert(sl.contains(x));
            }
        }
        assert forall|x: usize|
            !(ids_of(m.sleeping).contains(x) && ids_of(m.hibernating).contains(x)) by {
            if ids_of(m.sleeping).contains(x) && ids_of(m.hibernating).contains(x) {
                assert(sl.contains(x));
                assert(hi.contains(x));
            }
        }
        assert forall|x: usize| !(m.queue.contains(x) && m.in_flight.contains(x)) by {
            if m.queue.contains(x) && asleep.freed.contains(x) {
                assert(sl.contains(x));
            }
        }
        assert forall|x: usize| !(m.queue.contains(x) && ids_of(m.hibernating).contains(x)) by {
            if m.queue.contains(x) && ids_of(m.hibernating).contains(x) {
                assert(hi.contains(x));
                if asleep.freed.contains(x) {
                    assert(sl.contains(x));
                }
            }
        }
        assert forall|x: usize| !(m.in_flight.contains(x) && ids_of(m.hibernating).contains(x)) by {
            if ids_of(m.hibernating).contains(x) {
                assert(hi.contains(x));
            }
        }
    }
    assert forall|x: usize| #[trigger] pending(m, x) implies !done(m, x) && x < m.next_id by {
        assert(pending(s, x));
    }
    // What the jobs wait for.
    lemma_sweep_sound(s, m, s.sleeping, id, s.sleeping.len());
    lemma_sweep_sound(s, m, s.hibernating, id, s.hibernating.len());
    // Who waits for a job.
    lemma_remove_first(s.waiters, id);
    assert forall|i: int| 0 <= i < m.waiters.len() implies !done(m, #[trigger] m.waiters[i]) by {
        let x = m.waiters[i];
        assert(m.waiters.contains(x));
        assert(s.waiters.contains(x));
        let j = choose|j: int| 0 <= j < s.waiters.len() && s.waiters[j] == x;
        assert(!done(s, s.waiters[j]));
    }
    assert(wf(m));
    assert forall|x: usize| #[trigger] seq![id].contains(x) implies done(m, x) by {
        let i = choose|i: int| 0 <= i < seq![id].len() && seq![id][i] == x;
    }
    assert forall|x: usize| #[trigger] done(m, x) implies done(s, x) || seq![id].contains(x)
        || ids_of(s.hibernating).contains(x) by {
        if x == id {
            assert(seq![id][0] == id);
        }
    }
    // The hibernating jobs that were freed.
    assert forall|k: int| 0 <= k < hib.freed.len() implies free(m, #[trigger] hib.freed[k]) by {
        let e = hib.freed[k];
        assert(hib.freed.contains(e));
        assert(hi.contains(e));
        assert(pending(s, e));
        if pending(m, e) {
            if ids_of(m.sleeping).contains(e) {
                assert(sl.contains(e));
            } else if m.queue.contains(e) {
                if asleep.freed.contains(e) {
                    assert(sl.contains(e));
                }
            }
        }
    }
}

/// Ending a free job, and with it the hibernating jobs that waited for
/// nothing else, keeps the invariant; see `ends` for all that holds.
pub proof fn lemma_completed(s: SchedulerView, id: usize, depth: nat)
    requires
        wf(s),
        free(s, id),
    ensures
        ends(
            s,
            completed(s, id, depth).0,
            completed(s, id, depth).1,
            if depth > 0 {
                seq![id]
            } else {
                Seq::empty()
            },
        ),
        completed(s, id, depth).0.hibernating.len() <= s.hibernating.len(),
    decreases depth, 0nat,
{
    if depth == 0 {
        lemma_ends_nothing(s);
    } else {
        let m = marked(s, id);
        let freed = sweep(s.hibernating, id, s.hibernating.len()).freed;
        lemma_marked(s, id);
        lemma_completed_all(m, freed, freed.len(), (depth - 1) as nat);
        let after = completed_all(m, freed, freed.len(), (depth - 1) as nat);
        let ended_all = if depth - 1 > 0 {
            freed.subrange(0, freed.len() as int)
        } else {
            Seq::<usize>::empty()
        };
        lemma_ends_compose(s, m, after.0, Seq::empty(), after.1, seq![id], ended_all);
        assert(Seq::<usize>::empty() + after.1 =~= after.1);
        let r = after.0;
        let notes = completed(s, id, depth).1;
        // Only the job itself counts as ended: the others hibernated.
        assert forall|x: usize| #[trigger] done(r, x) implies done(s, x) || seq![id].contains(x)
            || ids_of(s.hibernating).contains(x) by {
            if (seq![id] + ended_all).contains(x) {
                let i = choose|i: int|
                    0 <= i < (seq![id] + ended_all).len() && (seq![id] + ended_all)[i] == x;
                if i == 0 {
                    assert(seq![id][0] == x);
                } else {
                    assert(ended_all[i - 1] == x);
                    assert(freed[i - 1] == x);
                    assert(freed.contains(x));
                }
            }
        }
        assert forall|x: usize| #[trigger] seq![id].contains(x) implies done(r, x) by {
            let i = choose|i: int| 0 <= i < seq![id].len() && seq![id][i] == x;
            assert((seq![id] + ended_all)[0] == id);
            assert((seq![id] + ended_all).contains(id));
        }
        if s.waiters.contains(id) {
            assert(!after.1.contains(id)) by {
                if after.1.contains(id) {
                    assert(m.waiters.contains(id));
                }
            }
            lemma_push_distinct(after.1, id);
            assert(seq![id].contains(id)) by {
                assert(seq![id][0] == id);
            }
            assert forall|x: usize| #[trigger] notes.contains(x) implies s.waiters.contains(x)
                && done(r, x) && !r.waiters.contains(x) by {
                if x == id {
                    if r.waiters.contains(id) {
                        assert(m.waiters.contains(id));
                    }
                } else {
                    assert(after.1.contains(x));
                }
            }
        }
    }
}

/// Ending free jobs one after the other keeps the invariant; see `ends` for
/// all that holds.
pub proof fn lemma_completed_all(s: SchedulerView, ids: Seq<usize>, n: nat, depth: nat)
    requires
        wf(s),
        n <= ids.len(),
        ids.no_duplicates(),
        disjoint(ids, ids_of(s.hibernating)),
        forall|k: int| 0 <= k < ids.len() ==> free(s, #[trigger] ids[k]),
    ensures
        ends(
            s,
            completed_all(s, ids, n, depth).0,
            completed_all(s, ids, n, depth).1,
            if depth > 0 {
                ids.subrange(0, n as int)
            } else {
                Seq::empty()
            },
        ),
        completed_all(s, ids, n, depth).0.hibernating.len() <= s.hibernating.len(),
    decreases depth, 1 + n,
{
    if n == 0 {
        lemma_ends_nothing(s);
        assert(ids.subrange(0, 0) =~= Seq::<usize>::empty());
    } else {
        lemma_completed_all(s, ids, (n - 1) as nat, depth);
        let before = completed_all(s, ids, (n - 1) as nat, depth);
        let e = ids[n - 1];
        let ended_before = if depth > 0 {
            ids.subrange(0, n - 1)
        } else {
            Seq::<usize>::empty()
        };
        assert(free(before.0, e)) by {
            assert(free(s, e));
            if pending(before.0, e) {
                assert(pending(s, e));
            }
            if done(before.0, e) {
                if ended_before.contains(e) {
                    let i = choose|i: int| 0 <= i < ended_before.len() && ended_before[i] == e;
                    assert(ids[i] == ids[n - 1]);
                }
                assert(ids.contains(e));
            }
        }
        lemma_completed(before.0, e, depth);
        let last = completed(before.0, e, depth);
        let ended_last = if depth > 0 {
            seq![e]
        } else {
            Seq::<usize>::empty()
        };
        lemma_ends_compose(s, before.0, last.0, before.1, last.1, ended_before, ended_last);
        if depth > 0 {
            assert(ended_before + ended_last =~= ids.subrange(0, n as int));
        } else {
            assert(ended_before + ended_last =~= Seq::<usize>::empty());
        }
    }
}

} // verus!

verus! {

/// The invariant holds of a fresh scheduler.
pub proof fn lemma_initial_wf(uid: u32)
    ensures
        wf(initial(uid)),
{
    let s = initial(uid);
    assert(ids_of(s.sleeping) =~= Seq::<usize>::empty());
    assert(ids_of(s.hibernating) =~= Seq::<usize>::empty());
}

/// Submitting a job keeps the invariant.
pub proof fn lemma_submitted_wf(s: SchedulerView, deps: Seq<usize>)
    requires
        wf(s),
        s.next_id < usize::MAX,
    ensures
        wf(submitted(s, deps)),
{
    let r = submitted(s, deps);
    let id = s.next_id;
    let waits_for = live(s, deps, deps.len());
    lemma_live(s, deps, deps.len());
    assert(!pending(s, id));
    assert(!done(s, id)) by {
        if s.gap.contains(id) {
            let i = choose|i: int| 0 <= i < s.gap.len() && s.gap[i] == id;
            assert(s.gap[i] < s.next_id);
        }
    }
    assert forall|y: usize| done(r, y) <==> done(s, y) by {}
    if waits_for.len() == 0 {
        lemma_push_distinct(s.queue, id);
        assert forall|x: usize| #[trigger] pending(r, x) implies !done(r, x) && x < r.next_id by {
            if x != id {
                assert(pending(s, x));
            }
        }
    } else {
        let entry = Waiting { id, deps: waits_for };
        assert(ids_of(r.sleeping) =~= ids_of(s.sleeping).push(id));
        lemma_push_distinct(ids_of(s.sleeping), id);
        assert forall|x: usize| #[trigger] pending(r, x) implies !done(r, x) && x < r.next_id by {
            if x != id {
                assert(pending(s, x));
            }
        }
        assert forall|i: int| 0 <= i < r.sleeping.len() implies {
            &&& (#[trigger] r.sleeping[i]).deps.len() > 0
            &&& forall|k: int|
                0 <= k < r.sleeping[i].deps.len() ==> !done(r, #[trigger] r.sleeping[i].deps[k])
        } by {
            if i < s.sleeping.len() {
                assert(r.sleeping[i] == s.sleeping[i]);
            }
        }
    }
    assert(waits_sound(r, r.hibernating));
    assert forall|i: int| 0 <= i < r.waiters.len() implies !done(r, #[trigger] r.waiters[i]) by {
        assert(!done(s, s.waiters[i]));
    }
}

/// Handing a ready job to a worker keeps the invariant.
pub proof fn lemma_dispatched_wf(s: SchedulerView)
    requires
        wf(s),
        s.queue.len() > 0,
    ensures
        wf(dispatched(s)),
{
    let r = dispatched(s);
    let id = s.queue[0];
    assert(s.queue.contains(id));
    assert(r.queue =~= remove_at(s.queue, 0));
    lemma_remove_at(s.queue, 0);
    assert(!s.in_flight.contains(id));
    lemma_push_distinct(s.in_flight, id);
    assert forall|x: usize| #[trigger] pending(r, x) implies pending(s, x) by {}
    assert forall|y: usize| done(r, y) <==> done(s, y) by {}
    assert(states_distinct(r)) by {
        assert forall|x: usize| !(ids_of(r.sleeping).contains(x) && r.queue.contains(x)) by {
            if r.queue.contains(x) {
                assert(s.queue.contains(x));
            }
        }
        assert forall|x: usize| !(ids_of(r.sleeping).contains(x) && r.in_flight.contains(x)) by {
            if x == id {
                assert(s.queue.contains(x));
            }
        }
        assert forall|x: usize| !(r.queue.contains(x) && r.in_flight.contains(x)) by {
            if r.queue.contains(x) {
                assert(s.queue.contains(x) && x != id);
            }
        }
        assert forall|x: usize| !(r.queue.contains(x) && ids_of(r.hibernating).contains(x)) by {
            if r.queue.contains(x) {
                assert(s.queue.contains(x));
            }
        }
        assert forall|x: usize| !(r.in_flight.contains(x) && ids_of(r.hibernating).contains(x)) by {
            if x == id {
                assert(s.queue.contains(x));
            }
        }
    }
    assert forall|x: usize| #[trigger] pending(r, x) implies !done(r, x) && x < r.next_id by {
        assert(pending(s, x));
    }
    assert forall|i: int| 0 <= i < r.waiters.len() implies !done(r, #[trigger] r.waiters[i]) by {
        assert(!done(s, s.waiters[i]));
    }
}

/// Beginning to wait for the end of a job keeps the invariant.
pub proof fn lemma_awaited_wf(s: SchedulerView, id: usize)
    requires
        wf(s),
    ensures
        wf(awaited(s, id)),
{
    let r = awaited(s, id);
    if !(done(s, id) || s.waiters.contains(id)) {
        lemma_push_distinct(s.waiters, id);
        assert forall|x: usize| #[trigger] pending(r, x) implies pending(s, x) by {}
        assert forall|i: int| 0 <= i < r.waiters.len() implies !done(r, #[trigger] r.waiters[i]) by {
            if i < s.waiters.len() {
                assert(!done(s, s.waiters[i]));
            }
        }
    }
}

/// Closing the queue keeps the invariant.
pub proof fn lemma_closed_wf(s: SchedulerView)
    requires
        wf(s),
    ensures
        wf(SchedulerView { closed: true, ..s }),
{
    let r = SchedulerView { closed: true, ..s };
    assert forall|x: usize| #[trigger] pending(r, x) implies pending(s, x) by {}
    assert forall|y: usize| done(r, y) <==> done(s, y) by {}
    assert forall|i: int| 0 <= i < r.waiters.len() implies !done(r, #[trigger] r.waiters[i]) by {
        assert(!done(s, s.waiters[i]));
    }
}

/// A job in flight is free once it has been taken out of the jobs in
/// flight.
pub proof fn lemma_released(s: SchedulerView, id: usize)
    requires
        wf(s),
        s.in_flight.contains(id),
    ensures
        wf(SchedulerView { in_flight: remove_first(s.in_flight, id), ..s }),
        free(SchedulerView { in_flight: remove_first(s.in_flight, id), ..s }, id),
{
    let r = SchedulerView { in_flight: remove_first(s.in_flight, id), ..s };
    lemma_remove_first(s.in_flight, id);
    assert(pending(s, id));
    assert forall|x: usize| #[trigger] pending(r, x) implies pending(s, x) by {}
    assert forall|y: usize| done(r, y) <==> done(s, y) by {}
    assert forall|i: int| 0 <= i < r.waiters.len() implies !done(r, #[trigger] r.waiters[i]) by {
        assert(!done(s, s.waiters[i]));
    }
}

/// The end of a job in flight keeps the invariant. No job is notified
/// twice, and every notification is for a job that somebody waited for,
/// that has just become finished, and that nobody waits for any more.
pub proof fn lemma_finished(s: SchedulerView, id: usize)
    requires
        wf(s),
        s.in_flight.contains(id),
    ensures
        wf(finished(s, id).0),
        finished(s, id).0.next_id == s.next_id,
        finished(s, id).0.uid == s.uid,
        finished(s, id).0.closed == s.closed,
        done(finished(s, id).0, id),
        finished(s, id).1.no_duplicates(),
        forall|x: usize|
            #[trigger] finished(s, id).1.contains(x) ==> {
                &&& s.waiters.contains(x)
                &&& !done(s, x)
                &&& done(finished(s, id).0, x)
                &&& !finished(s, id).0.waiters.contains(x)
            },
        forall|x: usize| done(s, x) ==> #[trigger] done(finished(s, id).0, x),
{
    let out = SchedulerView { in_flight: remove_first(s.in_flight, id), ..s };
    lemma_released(s, id);
    let depth = (s.hibernating.len() + 1) as nat;
    lemma_completed(out, id, depth);
    assert(seq![id][0] == id);
    assert(seq![id].contains(id));
    assert forall|x: usize| #[trigger] finished(s, id).1.contains(x) implies !done(s, x) by {
        assert(s.waiters.contains(x));
        let j = choose|j: int| 0 <= j < s.waiters.len() && s.waiters[j] == x;
        assert(!done(s, s.waiters[j]));
    }
}

/// Hibernating keeps the invariant, and of its notifications the same
/// holds as of those of the end of a job.
pub proof fn lemma_hibernated(s: SchedulerView, id: usize, deps: Seq<usize>)
    requires
        wf(s),
        s.in_flight.contains(id),
    ensures
        wf(hibernated(s, id, deps).0),
        hibernated(s, id, deps).0.next_id == s.next_id,
        hibernated(s, id, deps).0.uid == s.uid,
        hibernated(s, id, deps).0.closed == s.closed,
        hibernated(s, id, deps).1.no_duplicates(),
        forall|x: usize|
            #[trigger] hibernated(s, id, deps).1.contains(x) ==> {
                &&& s.waiters.contains(x)
                &&& !done(s, x)
                &&& done(hibernated(s, id, deps).0, x)
                &&& !hibernated(s, id, deps).0.waiters.contains(x)
            },
        forall|x: usize| done(s, x) ==> #[trigger] done(hibernated(s, id, deps).0, x),
{
    let out = SchedulerView { in_flight: remove_first(s.in_flight, id), ..s };
    let waits_for = live(s, deps, deps.len());
    lemma_released(s, id);
    lemma_live(s, deps, deps.len());
    if waits_for.len() == 0 {
        let depth = (s.hibernating.len() + 1) as nat;
        lemma_completed(out, id, depth);
        assert forall|x: usize| #[trigger] hibernated(s, id, deps).1.contains(x) implies !done(
            s,
            x,
        ) by {
            assert(s.waiters.contains(x));
            let j = choose|j: int| 0 <= j < s.waiters.len() && s.waiters[j] == x;
            assert(!done(s, s.waiters[j]));
        }
    } else {
        let r = hibernated(s, id, deps).0;
        assert(ids_of(r.hibernating) =~= ids_of(out.hibernating).push(id));
        lemma_push_distinct(ids_of(out.hibernating), id);
        assert forall|x: usize| #[trigger] pending(r, x) implies !done(r, x) && x < r.next_id by {
            if x != id {
                assert(pending(out, x));
            }
        }
        assert forall|i: int| 0 <= i < r.hibernating.len() implies {
            &&& (#[trigger] r.hibernating[i]).deps.len() > 0
            &&& forall|k: int|
                0 <= k < r.hibernating[i].deps.len() ==> !done(
                    r,
                    #[trigger] r.hibernating[i].deps[k],
                )
        } by {
            if i < out.hibernating.len() {
                assert(r.hibernating[i] == out.hibernating[i]);
            }
        }
        assert forall|i: int| 0 <= i < r.waiters.len() implies !done(r, #[trigger] r.waiters[i]) by {
            assert(!done(out, out.waiters[i]));
        }
    }
}

/// At any moment every id up to the watermark is finished and belongs to
/// no job that sleeps, is ready, is in flight or hibernates; and no job in
/// the ready queue waits for another job: a job that does is asleep, and no
/// job is both asleep and in the queue.
pub proof fn lemma_watermark(s: SchedulerView, id: usize)
    requires
        wf(s),
    ensures
        id <= s.watermark ==> done(s, id) && !pending(s, id),
        s.queue.contains(id) ==> !done(s, id) && !ids_of(s.sleeping).contains(id) && !ids_of(
            s.hibernating,
        ).contains(id),
{
    if s.queue.contains(id) {
        assert(pending(s, id));
    }
    if pending(s, id) {
        assert(!done(s, id));
    }
}

/// Nobody is notified of the end of a job that is finished already: a
/// finished job is not waited for, and is not among the notifications of
/// any later end of a job.
pub proof fn lemma_finish_fires_once(s: SchedulerView, ended: usize, id: usize)
    requires
        wf(s),
        done(s, ended),
        s.in_flight.contains(id),
    ensures
        !s.waiters.contains(ended),
        awaited(s, ended) == s,
        !finished(s, id).1.contains(ended),
        forall|deps: Seq<usize>| !(#[trigger] hibernated(s, id, deps)).1.contains(ended),
{
    lemma_finished(s, id);
    if s.waiters.contains(ended) {
        let j = choose|j: int| 0 <= j < s.waiters.len() && s.waiters[j] == ended;
        assert(!done(s, s.waiters[j]));
    }
    assert forall|deps: Seq<usize>| !(#[trigger] hibernated(s, id, deps)).1.contains(ended) by {
        lemma_hibernated(s, id, deps);
    }
}

} // verus!

