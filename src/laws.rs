//! Properties that hold across the scheduler's operations.
use vstd::prelude::*;

use crate::scheduler::{
    Event, SchedulerModel, add_to_slots, cancel_spec, drain, has_full_slot, model_inv,
    reconcile_spec, run_entry, lemma_without_len, run_missed_spec, run_queue_spec, slot_ids, tick_spec,
};

verus! {

/// The ids of `es`, in order.
pub open spec fn event_ids(es: Seq<Event>) -> Seq<u64>
    decreases es.len(),
{
    if es.len() == 0 {
        Seq::empty()
    } else {
        seq![es[0].id] + event_ids(es.drop_first())
    }
}

/// How many of `es` retired their task.
pub open spec fn retired_count(es: Seq<Event>) -> nat
    decreases es.len(),
{
    if es.len() == 0 {
        0
    } else {
        (if es[0].retired { 1nat } else { 0nat }) + retired_count(es.drop_first())
    }
}

/// `a` is a subsequence of `b`: its items occur in `b` in the same order.
pub open spec fn embeds(a: Seq<u64>, b: Seq<u64>) -> bool
    decreases b.len(),
{
    if a.len() == 0 {
        true
    } else if b.len() == 0 {
        false
    } else if a[0] == b[0] {
        embeds(a.drop_first(), b.drop_first())
    } else {
        embeds(a, b.drop_first())
    }
}

proof fn lemma_embeds_drop(a: Seq<u64>, b: Seq<u64>)
    requires
        embeds(a, b),
        a.len() > 0,
    ensures
        embeds(a.drop_first(), b),
    decreases b.len(),
{
    let a1 = a.drop_first();
    if a[0] == b[0] {
        if a1.len() > 0 && a1[0] == b[0] {
            lemma_embeds_drop(a1, b.drop_first());
        }
    } else {
        lemma_embeds_drop(a, b.drop_first());
        if a1.len() > 0 && a1[0] == b[0] {
            lemma_embeds_drop(a1, b.drop_first());
        }
    }
}

proof fn lemma_embeds_extend(a: Seq<u64>, b: Seq<u64>)
    requires
        b.len() > 0,
        embeds(a, b.drop_first()),
    ensures
        embeds(a, b),
{
    if a.len() > 0 && a[0] == b[0] {
        lemma_embeds_drop(a, b.drop_first());
    }
}

proof fn lemma_retired_count_add(a: Seq<Event>, b: Seq<Event>)
    ensures
        retired_count(a + b) == retired_count(a) + retired_count(b),
    decreases a.len(),
{
    if a.len() > 0 {
        assert((a + b).drop_first() =~= a.drop_first() + b);
        lemma_retired_count_add(a.drop_first(), b);
    } else {
        assert(a + b =~= b);
    }
}

/// What draining does to the task store: every event is of a task that was
/// live, no task becomes live, the ids that ran keep the list's order, and
/// the store shrinks by exactly the tasks that retired.
pub proof fn lemma_drain_tasks(m: SchedulerModel, list: Seq<u64>, budget: nat)
    requires
        m.tasks.dom().finite(),
    ensures
        ({
            let d = drain(m, list, budget);
            &&& forall|i: int| 0 <= i < d.3.len() ==> m.tasks.contains_key(#[trigger] d.3[i].id)
            &&& forall|k: u64| #[trigger] d.0.tasks.contains_key(k) ==> m.tasks.contains_key(k)
            &&& d.0.tasks.dom().finite()
            &&& d.0.tasks.len() + retired_count(d.3) == m.tasks.len()
            &&& embeds(event_ids(d.3), list)
        }),
    decreases list.len(),
{
    if list.len() == 0 {
    } else if !m.tasks.contains_key(list[0]) {
        lemma_drain_tasks(m, list.drop_first(), budget);
        lemma_embeds_extend(event_ids(drain(m, list, budget).3), list);
    } else if crate::scheduler::action_cost(m, m.tasks[list[0]].action) > budget {
    } else {
        let c = crate::scheduler::action_cost(m, m.tasks[list[0]].action);
        let (m1, e) = run_entry(m, list[0]);
        lemma_drain_tasks(m1, list.drop_first(), (budget - c) as nat);
        let d1 = drain(m1, list.drop_first(), (budget - c) as nat);
        let es = seq![e] + d1.3;
        assert(es.drop_first() =~= d1.3);
        assert(es[0] == e);
        assert forall|i: int| 0 <= i < es.len() implies m.tasks.contains_key(#[trigger] es[i].id) by {
            if i > 0 {
                assert(es[i] == d1.3[i - 1]);
            }
        }
        assert(event_ids(es).drop_first() =~= event_ids(d1.3));
    }
}

/// Capacity: a slot already holding `capacity` entries turns away every
/// schedule that names it, and a schedule that is not turned away adds
/// exactly one entry to each slot it names, never going past `capacity`.
pub proof fn law_slot_capacity(m: SchedulerModel, slots: Seq<u64>, s: u64, id: u64)
    requires
        model_inv(m),
        slots.contains(s),
    ensures
        slot_ids(m.index, s).len() == m.capacity ==> has_full_slot(m, slots),
        !has_full_slot(m, slots) ==> slot_ids(add_to_slots(m.index, slots, id), s).len()
            == slot_ids(m.index, s).len() + 1 <= m.capacity,
{
    let j = choose|j: int| 0 <= j < slots.len() && slots[j] == s;
    assert(slots[j] == s);
}

/// What the execution queue still holds when a tick begins becomes the newest
/// backlog batch, whole and in order, and the time index only loses slots.
/// An id of the queue that was in no batch is then in that one batch alone.
pub proof fn law_unfinished_queue_is_missed(m: SchedulerModel, now: nat, id: u64)
    requires
        model_inv(m),
        m.queue.len() > 0,
    ensures
        ({
            let r = reconcile_spec(m, now);
            &&& r.backlog.len() >= 1
            &&& r.backlog.last() == m.queue
            &&& forall|s: u64| #[trigger] r.index.contains_key(s) ==> m.index.contains_key(s) && r.index[s] == m.index[s]
            &&& (m.queue.contains(id) && (forall|k: int| 0 <= k < m.backlog.len() ==> !(#[trigger] m.backlog[k]).contains(id)))
                ==> forall|k: int| 0 <= k < r.backlog.len() ==> ((#[trigger] r.backlog[k]).contains(id) <==> k == r.backlog.len() - 1)
        }),
{
    let r = reconcile_spec(m, now);
    let p = m.backlog.push(m.queue);
    if m.queue.contains(id) && (forall|k: int| 0 <= k < m.backlog.len() ==> !(#[trigger] m.backlog[k]).contains(id)) {
        assert forall|k: int| 0 <= k < r.backlog.len() implies ((#[trigger] r.backlog[k]).contains(id) <==> k == r.backlog.len() - 1) by {
            if p.len() > 0 && p[0].len() == 0 {
                assert(r.backlog[k] == p[k + 1]);
                if k + 1 < m.backlog.len() {
                    assert(!m.backlog[k + 1].contains(id));
                }
            } else {
                assert(r.backlog[k] == p[k]);
                if k < m.backlog.len() {
                    assert(!m.backlog[k].contains(id));
                }
            }
        }
    }
}

/// Cancelling a task takes its id out of the task store, the execution
/// queue, every backlog batch and every slot of the time index; and the
/// next tick gives no event for it.
pub proof fn law_cancelled_task_is_silent(m: SchedulerModel, id: u64, now: nat, budget: nat)
    requires
        model_inv(m),
        m.tasks.contains_key(id),
    ensures
        !cancel_spec(m, id).tasks.contains_key(id),
        !cancel_spec(m, id).queue.contains(id),
        forall|k: int|
            0 <= k < cancel_spec(m, id).backlog.len() ==> !(#[trigger] cancel_spec(m, id).backlog[k]).contains(id),
        forall|s: u64|
            #[trigger] cancel_spec(m, id).index.contains_key(s) ==> !cancel_spec(m, id).index[s].contains(id),
        forall|i: int| 0 <= i < tick_spec(cancel_spec(m, id), now, budget).1.len() ==>
            (#[trigger] tick_spec(cancel_spec(m, id), now, budget).1[i]).id != id,
{
    let c = cancel_spec(m, id);
    lemma_without_len(m.queue, id);
    assert forall|k: int| 0 <= k < c.backlog.len() implies !(#[trigger] c.backlog[k]).contains(id) by {
        lemma_without_len(m.backlog[k], id);
    }
    assert forall|s: u64| #[trigger] c.index.contains_key(s) implies !c.index[s].contains(id) by {
        lemma_without_len(m.index[s], id);
        if !m.tasks[id].slots@.contains(s) && m.index[s].contains(id) {
            assert(m.tasks[id].slots@.contains(s));
        }
    }
    let r = reconcile_spec(c, now);
    lemma_drain_tasks(r, r.queue, budget);
    let (m1, b1, e1) = run_queue_spec(r, budget);
    if m1.backlog.len() > 0 {
        lemma_drain_tasks(m1, m1.backlog[0], b1);
    }
    let (m2, b2, e2) = run_missed_spec(m1, b1);
    let es = tick_spec(c, now, budget).1;
    assert(es == e1 + e2);
    assert forall|i: int| 0 <= i < es.len() implies (#[trigger] es[i]).id != id by {
        if i < e1.len() {
            assert(es[i] == e1[i]);
        } else {
            assert(es[i] == e2[i - e1.len()]);
        }
    }
}

/// First in, first out: the ids that run from the execution queue run in the
/// queue's order, which is the order in which they were scheduled.
pub proof fn law_queue_runs_in_order(m: SchedulerModel, budget: nat)
    requires
        model_inv(m),
    ensures
        embeds(event_ids(run_queue_spec(m, budget).2), m.queue),
{
    lemma_drain_tasks(m, m.queue, budget);
}

/// Scheduling appends: the new id goes after every id already in its slots.
pub proof fn law_schedule_appends(index: Map<u64, Seq<u64>>, slots: Seq<u64>, id: u64, s: u64)
    requires
        slots.contains(s),
    ensures
        slot_ids(add_to_slots(index, slots, id), s) == slot_ids(index, s).push(id),
{
}

/// Conservation: a tick creates no task, and the live tasks shrink by
/// exactly the tasks whose events say they retired.
pub proof fn law_tick_conserves_tasks(m: SchedulerModel, now: nat, budget: nat)
    requires
        model_inv(m),
    ensures
        ({
            let (m2, es) = tick_spec(m, now, budget);
            &&& forall|k: u64| #[trigger] m2.tasks.contains_key(k) ==> m.tasks.contains_key(k)
            &&& m2.tasks.len() + retired_count(es) == m.tasks.len()
        }),
{
    let r = reconcile_spec(m, now);
    lemma_drain_tasks(r, r.queue, budget);
    let (m1, b1, e1) = run_queue_spec(r, budget);
    if m1.backlog.len() > 0 {
        lemma_drain_tasks(m1, m1.backlog[0], b1);
    }
    let (m2, b2, e2) = run_missed_spec(m1, b1);
    lemma_retired_count_add(e1, e2);
}

} // verus!
