//! The scheduling engine: task store, time index, execution queue and missed
//! backlog, driven one tick at a time.
use std::collections::HashMap;
use vstd::prelude::*;

verus! {

broadcast use vstd::std_specs::hash::group_hash_axioms;

/// What a task does when it runs.
#[derive(Clone, Debug)]
pub enum Action {
    Notify { payload: Vec<u8> },
    Transfer { recipient: u32, amount: u64 },
}

/// The canonical record of a live task.
#[derive(Clone, Debug)]
pub struct Task {
    pub owner: u32,
    /// The distinct slots the task was scheduled for.
    pub slots: Vec<u64>,
    /// How many of its schedule entries have not run yet.
    pub remaining: u64,
    pub action: Action,
}

/// Why a schedule request was turned away.
#[derive(Clone, Copy, Debug, PartialEq, Eq, Structural)]
pub enum ScheduleError {
    PastTime,
    DuplicateTask,
    SlotFull,
}

/// Why a cancellation was turned away.
#[derive(Clone, Copy, Debug, PartialEq, Eq, Structural)]
pub enum CancelError {
    NotFound,
    NotOwner,
}

/// How running an action went. A failed transfer is consumed all the same.
#[derive(Clone, Copy, Debug, PartialEq, Eq, Structural)]
pub enum Outcome {
    Executed,
    InsufficientFunds,
    BalanceOverflow,
}

/// One schedule entry that ran. `retired` is set when it was the task's last.
#[derive(Clone, Copy, Debug, PartialEq, Eq, Structural)]
pub struct Event {
    pub id: u64,
    pub outcome: Outcome,
    pub retired: bool,
}

/// The mathematical state of a `Scheduler`.
pub ghost struct SchedulerModel {
    pub capacity: nat,
    pub granularity: nat,
    pub notify_cost: nat,
    pub transfer_cost: nat,
    pub now: nat,
    pub tasks: Map<u64, Task>,
    pub index: Map<u64, Seq<u64>>,
    pub queue: Seq<u64>,
    pub queue_slot: Option<u64>,
    pub backlog: Seq<Seq<u64>>,
    pub balances: Map<u32, u64>,
}

/// The engine: task store, time index (slot to ids, at most `capacity` each),
/// execution queue with the slot it was filled from, and missed backlog.
pub struct Scheduler {
    capacity: u64,
    granularity: u64,
    notify_cost: u64,
    transfer_cost: u64,
    now: u64,
    tasks: HashMap<u64, Task>,
    index: HashMap<u64, Vec<u64>>,
    queue: Vec<u64>,
    queue_slot: Option<u64>,
    backlog: Vec<Vec<u64>>,
    balances: HashMap<u32, u64>,
}

/// The identifier of the task that `owner` tags with `tag`.
pub open spec fn id_of(owner: u32, tag: u32) -> u64 {
    (owner as nat * 0x1_0000_0000 + tag as nat) as u64
}

/// The slot that time `t` falls in.
pub open spec fn slot_of(t: nat, granularity: nat) -> nat {
    t / granularity
}

/// The ids due in slot `s`, empty when none were scheduled there.
pub open spec fn slot_ids(index: Map<u64, Seq<u64>>, s: u64) -> Seq<u64> {
    if index.contains_key(s) {
        index[s]
    } else {
        Seq::empty()
    }
}

/// The balance of account `a`; an account never credited holds nothing.
pub open spec fn balance(b: Map<u32, u64>, a: u32) -> nat {
    if b.contains_key(a) {
        b[a] as nat
    } else {
        0
    }
}

/// The cost of running `action` once.
pub open spec fn action_cost(m: SchedulerModel, action: Action) -> nat {
    match action {
        Action::Notify { .. } => m.notify_cost,
        Action::Transfer { .. } => m.transfer_cost,
    }
}

/// The balances after `owner` performs `action`, and how it went.
pub open spec fn perform(b: Map<u32, u64>, owner: u32, action: Action) -> (Map<u32, u64>, Outcome) {
    match action {
        Action::Notify { .. } => (b, Outcome::Executed),
        Action::Transfer { recipient, amount } => {
            if balance(b, owner) < amount {
                (b, Outcome::InsufficientFunds)
            } else if recipient == owner {
                (b, Outcome::Executed)
            } else if balance(b, recipient) + amount > u64::MAX {
                (b, Outcome::BalanceOverflow)
            } else {
                (
                    b.insert(owner, (balance(b, owner) - amount) as u64).insert(
                        recipient,
                        (balance(b, recipient) + amount) as u64,
                    ),
                    Outcome::Executed,
                )
            }
        },
    }
}

/// Runs one entry of the live task `id`: performs its action and retires it
/// when that was its last entry, taking its id out of its slots.
pub open spec fn run_entry(m: SchedulerModel, id: u64) -> (SchedulerModel, Event) {
    let t = m.tasks[id];
    let (b, outcome) = perform(m.balances, t.owner, t.action);
    let retired = t.remaining <= 1;
    let tasks = if retired {
        m.tasks.remove(id)
    } else {
        m.tasks.insert(id, Task { remaining: (t.remaining - 1) as u64, ..t })
    };
    let index = if retired {
        remove_from_slots(m.index, t.slots@, id)
    } else {
        m.index
    };
    (SchedulerModel { tasks, index, balances: b, ..m }, Event { id, outcome, retired })
}

/// Drains `list` from the front under `budget`: an id without a live task is
/// dropped at no cost; a live task runs when its cost fits in what is left of
/// the budget, and draining stops at the first one that does not fit.
/// Gives the new state, what is left of `list`, of the budget, and the events.
pub open spec fn drain(m: SchedulerModel, list: Seq<u64>, budget: nat) -> (
    SchedulerModel,
    Seq<u64>,
    nat,
    Seq<Event>,
)
    decreases list.len(),
{
    if list.len() == 0 {
        (m, list, budget, Seq::empty())
    } else if !m.tasks.contains_key(list[0]) {
        drain(m, list.drop_first(), budget)
    } else if action_cost(m, m.tasks[list[0]].action) > budget {
        (m, list, budget, Seq::empty())
    } else {
        let (m1, e) = run_entry(m, list[0]);
        let (m2, rest, b2, es) = drain(
            m1,
            list.drop_first(),
            (budget - action_cost(m, m.tasks[list[0]].action)) as nat,
        );
        (m2, rest, b2, seq![e] + es)
    }
}

/// The distinct slots of `times`, in order of first appearance.
pub open spec fn slots_of(times: Seq<u64>, granularity: nat) -> Seq<u64>
    decreases times.len(),
{
    if times.len() == 0 {
        Seq::empty()
    } else {
        let prev = slots_of(times.drop_last(), granularity);
        let s = slot_of(times.last() as nat, granularity) as u64;
        if prev.contains(s) {
            prev
        } else {
            prev.push(s)
        }
    }
}

/// `s` without any occurrence of `id`, in order.
pub open spec fn without(s: Seq<u64>, id: u64) -> Seq<u64>
    decreases s.len(),
{
    if s.len() == 0 {
        s
    } else if s.last() == id {
        without(s.drop_last(), id)
    } else {
        without(s.drop_last(), id).push(s.last())
    }
}

/// Some time in `times` is not after `now`.
pub open spec fn has_past_time(times: Seq<u64>, now: nat) -> bool {
    exists|i: int| 0 <= i < times.len() && times[i] <= now
}

/// Some slot in `slots` is at capacity.
pub open spec fn has_full_slot(m: SchedulerModel, slots: Seq<u64>) -> bool {
    exists|j: int| 0 <= j < slots.len() && slot_ids(m.index, slots[j]).len() >= m.capacity
}

/// The time index with `id` appended to each slot of `slots`.
pub open spec fn add_to_slots(index: Map<u64, Seq<u64>>, slots: Seq<u64>, id: u64) -> Map<u64, Seq<u64>> {
    Map::new(
        |s: u64| index.contains_key(s) || slots.contains(s),
        |s: u64|
            if slots.contains(s) {
                slot_ids(index, s).push(id)
            } else {
                index[s]
            },
    )
}

/// The time index with `id` removed from each slot of `slots`.
pub open spec fn remove_from_slots(index: Map<u64, Seq<u64>>, slots: Seq<u64>, id: u64) -> Map<
    u64,
    Seq<u64>,
> {
    Map::new(
        |s: u64| index.contains_key(s),
        |s: u64|
            if slots.contains(s) {
                without(index[s], id)
            } else {
                index[s]
            },
    )
}

/// Each batch of `backlog` without `id`.
pub open spec fn backlog_without(backlog: Seq<Seq<u64>>, id: u64) -> Seq<Seq<u64>> {
    Seq::new(backlog.len(), |i: int| without(backlog[i], id))
}

/// The state after the live task `id` is cancelled: its record is gone, and so
/// is its id from its slots in the time index, from the execution queue and
/// from every backlog batch.
pub open spec fn cancel_spec(m: SchedulerModel, id: u64) -> SchedulerModel {
    SchedulerModel {
        tasks: m.tasks.remove(id),
        index: remove_from_slots(m.index, m.tasks[id].slots@, id),
        queue: without(m.queue, id),
        backlog: backlog_without(m.backlog, id),
        ..m
    }
}

pub proof fn lemma_without_len(s: Seq<u64>, id: u64)
    ensures
        without(s, id).len() <= s.len(),
        !without(s, id).contains(id),
    decreases s.len(),
{
    if s.len() > 0 {
        lemma_without_len(s.drop_last(), id);
        let w = without(s.drop_last(), id);
        if s.last() != id {
            assert forall|k: int| 0 <= k < w.push(s.last()).len() implies w.push(s.last())[k] != id by {
                if k < w.len() {
                    assert(w[k] != id);
                }
            }
        }
    }
}

proof fn lemma_push_contains(sub: Seq<u64>, s: u64, x: u64)
    ensures
        sub.push(s).contains(x) == (sub.contains(x) || x == s),
{
    if sub.contains(x) {
        let q = choose|q: int| 0 <= q < sub.len() && sub[q] == x;
        assert(sub.push(s)[q] == x);
    }
    if x == s {
        assert(sub.push(s)[sub.len() as int] == x);
    }
}

pub proof fn lemma_slots_distinct(times: Seq<u64>, g: nat)
    ensures
        slots_of(times, g).no_duplicates(),
    decreases times.len(),
{
    if times.len() > 0 {
        lemma_slots_distinct(times.drop_last(), g);
    }
}

/// Runs the execution queue under `budget`; what did not run stays queued.
pub open spec fn run_queue_spec(m: SchedulerModel, budget: nat) -> (SchedulerModel, nat, Seq<Event>) {
    let (m1, rest, b, es) = drain(m, m.queue, budget);
    (SchedulerModel { queue: rest, ..m1 }, b, es)
}

/// Runs the oldest backlog batch, and no other, under `budget`.
pub open spec fn run_missed_spec(m: SchedulerModel, budget: nat) -> (SchedulerModel, nat, Seq<Event>) {
    if m.backlog.len() == 0 {
        (m, budget, Seq::empty())
    } else {
        let (m1, rest, b, es) = drain(m, m.backlog[0], budget);
        (SchedulerModel { backlog: m.backlog.update(0, rest), ..m1 }, b, es)
    }
}

/// The backlog with what is left in the execution queue appended as one batch.
pub open spec fn swept(m: SchedulerModel) -> Seq<Seq<u64>> {
    if m.queue.len() > 0 {
        m.backlog.push(m.queue)
    } else {
        m.backlog
    }
}

/// The backlog without its oldest batch when that batch is used up.
pub open spec fn shifted(b: Seq<Seq<u64>>) -> Seq<Seq<u64>> {
    if b.len() > 0 && b[0].len() == 0 {
        b.drop_first()
    } else {
        b
    }
}

/// The start of the tick at time `now`: the unfinished queue goes to the
/// backlog, a used-up oldest batch is dropped, and the current slot's ids
/// leave the time index to become the execution queue.
pub open spec fn reconcile_spec(m: SchedulerModel, now: nat) -> SchedulerModel {
    let slot = (now / m.granularity) as u64;
    SchedulerModel {
        now,
        index: m.index.remove(slot),
        queue: slot_ids(m.index, slot),
        queue_slot: Some(slot),
        backlog: shifted(swept(m)),
        ..m
    }
}

/// One whole tick: reconcile, run the queue, then the oldest backlog batch
/// with what is left of the budget. Gives the new state and all events.
pub open spec fn tick_spec(m: SchedulerModel, now: nat, budget: nat) -> (SchedulerModel, Seq<Event>) {
    let (m1, b1, e1) = run_queue_spec(reconcile_spec(m, now), budget);
    let (m2, b2, e2) = run_missed_spec(m1, b1);
    (m2, e1 + e2)
}

/// Draining reads and writes only the task store, the time index and the
/// balances.
pub proof fn lemma_drain_frame(m: SchedulerModel, m2: SchedulerModel, list: Seq<u64>, budget: nat)
    requires
        m2.tasks == m.tasks,
        m2.index == m.index,
        m2.balances == m.balances,
        m2.notify_cost == m.notify_cost,
        m2.transfer_cost == m.transfer_cost,
    ensures
        ({
            let d = drain(m, list, budget);
            let d2 = drain(m2, list, budget);
            &&& d.0 == (SchedulerModel { tasks: d.0.tasks, index: d.0.index, balances: d.0.balances, ..m })
            &&& d2.0 == (SchedulerModel { tasks: d.0.tasks, index: d.0.index, balances: d.0.balances, ..m2 })
            &&& d2.1 == d.1
            &&& d2.2 == d.2
            &&& d2.3 == d.3
        }),
    decreases list.len(),
{
    if list.len() > 0 {
        let id = list[0];
        if !m.tasks.contains_key(id) {
            lemma_drain_frame(m, m2, list.drop_first(), budget);
        } else if action_cost(m, m.tasks[id].action) <= budget {
            let c = action_cost(m, m.tasks[id].action);
            let m1 = run_entry(m, id).0;
            let m21 = run_entry(m2, id).0;
            lemma_drain_frame(m1, m21, list.drop_first(), (budget - c) as nat);
            lemma_drain_frame(m1, m1, list.drop_first(), (budget - c) as nat);
        }
    }
}

/// The time index's map with each slot's ids as a sequence.
pub open spec fn index_view(index: Map<u64, Vec<u64>>) -> Map<u64, Seq<u64>> {
    Map::new(|s: u64| index.contains_key(s), |s: u64| index[s]@)
}

impl View for Scheduler {
    type V = SchedulerModel;

    closed spec fn view(&self) -> SchedulerModel {
        SchedulerModel {
            capacity: self.capacity as nat,
            granularity: self.granularity as nat,
            notify_cost: self.notify_cost as nat,
            transfer_cost: self.transfer_cost as nat,
            now: self.now as nat,
            tasks: self.tasks@,
            index: index_view(self.index@),
            queue: self.queue@,
            queue_slot: self.queue_slot,
            backlog: self.backlog@.map_values(|v: Vec<u64>| v@),
            balances: self.balances@,
        }
    }
}

/// Every id in a slot of the time index names a live task scheduled for
/// that slot.
pub open spec fn index_linked(m: SchedulerModel) -> bool {
    forall|s: u64, id: u64|
        m.index.contains_key(s) && #[trigger] m.index[s].contains(id) ==> m.tasks.contains_key(id)
            && m.tasks[id].slots@.contains(s)
}

pub proof fn lemma_without_contains(x: Seq<u64>, id: u64, y: u64)
    ensures
        without(x, id).contains(y) ==> x.contains(y) && y != id,
    decreases x.len(),
{
    if x.len() > 0 {
        lemma_without_contains(x.drop_last(), id, y);
        let w = without(x.drop_last(), id);
        if without(x, id).contains(y) {
            let k = choose|k: int| 0 <= k < without(x, id).len() && without(x, id)[k] == y;
            if x.last() != id && k == w.len() {
                assert(x[x.len() - 1] == y);
            } else {
                assert(w[k] == y);
                let j = choose|j: int| 0 <= j < x.drop_last().len() && x.drop_last()[j] == y;
                assert(x[j] == y);
            }
        }
    }
}

/// Taking the live task `id` out of the store, and its id out of its slots,
/// keeps the invariant.
pub proof fn lemma_retire_inv(m: SchedulerModel, id: u64)
    requires
        model_inv(m),
        m.tasks.contains_key(id),
    ensures
        model_inv(SchedulerModel { tasks: m.tasks.remove(id), index: remove_from_slots(m.index, m.tasks[id].slots@, id), ..m }),
{
    let slots = m.tasks[id].slots@;
    let m1 = SchedulerModel { tasks: m.tasks.remove(id), index: remove_from_slots(m.index, slots, id), ..m };
    assert forall|s: u64| #[trigger] m1.index.contains_key(s) implies m1.index[s].len() <= m1.capacity by {
        lemma_without_len(m.index[s], id);
    }
    assert forall|s: u64, y: u64| m1.index.contains_key(s) && #[trigger] m1.index[s].contains(y)
        implies m1.tasks.contains_key(y) && m1.tasks[y].slots@.contains(s) by {
        lemma_without_contains(m.index[s], id, y);
        if !slots.contains(s) {
            assert(m.index[s].contains(y));
            if y == id {
                assert(m.tasks[id].slots@.contains(s));
            }
        }
    }
}

/// The invariant reads only the capacity, granularity, store and index.
pub proof fn lemma_inv_same(m1: SchedulerModel, m2: SchedulerModel)
    requires
        model_inv(m2),
        m1.capacity == m2.capacity,
        m1.granularity == m2.granularity,
        m1.tasks == m2.tasks,
        m1.index == m2.index,
    ensures
        model_inv(m1),
{
    assert forall|s: u64, y: u64| m1.index.contains_key(s) && #[trigger] m1.index[s].contains(y)
        implies m1.tasks.contains_key(y) && m1.tasks[y].slots@.contains(s) by {
        assert(m2.index[s].contains(y));
    }
}

/// Adding a task that was not live, with its id appended to slots below
/// capacity, keeps the invariant.
pub proof fn lemma_schedule_inv(m: SchedulerModel, id: u64, t: Task)
    requires
        model_inv(m),
        !m.tasks.contains_key(id),
        t.remaining >= 1,
        t.slots@.no_duplicates(),
        forall|q: int| 0 <= q < t.slots@.len() ==> slot_ids(m.index, #[trigger] t.slots@[q]).len() < m.capacity,
    ensures
        model_inv(SchedulerModel { tasks: m.tasks.insert(id, t), index: add_to_slots(m.index, t.slots@, id), ..m }),
{
    let slots = t.slots@;
    let m1 = SchedulerModel { tasks: m.tasks.insert(id, t), index: add_to_slots(m.index, slots, id), ..m };
    assert forall|s: u64| #[trigger] m1.index.contains_key(s) implies m1.index[s].len() <= m1.capacity by {
        if slots.contains(s) {
            let q = choose|q: int| 0 <= q < slots.len() && slots[q] == s;
            assert(slot_ids(m.index, slots[q]).len() < m.capacity);
        }
    }
    assert forall|s: u64, y: u64| m1.index.contains_key(s) && #[trigger] m1.index[s].contains(y)
        implies m1.tasks.contains_key(y) && m1.tasks[y].slots@.contains(s) by {
        if slots.contains(s) {
            lemma_push_contains(slot_ids(m.index, s), id, y);
            if y != id {
                assert(m.index[s].contains(y));
            }
        } else {
            assert(m.index[s].contains(y));
        }
    }
}

/// Running one entry of a live task keeps the invariant.
pub proof fn lemma_run_entry_inv(m: SchedulerModel, id: u64)
    requires
        model_inv(m),
        m.tasks.contains_key(id),
    ensures
        model_inv(run_entry(m, id).0),
{
    let t = m.tasks[id];
    if t.remaining <= 1 {
        lemma_retire_inv(m, id);
        let m1 = SchedulerModel { tasks: m.tasks.remove(id), index: remove_from_slots(m.index, t.slots@, id), ..m };
        assert(run_entry(m, id).0 == (SchedulerModel { balances: run_entry(m, id).0.balances, ..m1 }));
    } else {
        let m1 = run_entry(m, id).0;
        assert forall|s: u64, y: u64| m1.index.contains_key(s) && #[trigger] m1.index[s].contains(y)
            implies m1.tasks.contains_key(y) && m1.tasks[y].slots@.contains(s) by {
            assert(m.index[s].contains(y));
        }
    }
}

/// What holds of every reachable state.
pub open spec fn model_inv(m: SchedulerModel) -> bool {
    &&& m.granularity > 0
    &&& m.tasks.dom().finite()
    &&& forall|s: u64| #[trigger] m.index.contains_key(s) ==> m.index[s].len() <= m.capacity
    &&& forall|id: u64| #[trigger]
        m.tasks.contains_key(id) ==> m.tasks[id].remaining >= 1 && m.tasks[id].slots@.no_duplicates()
    &&& index_linked(m)
}

/// The recipient and amount of a transfer; `None` for a notification.
pub open spec fn transfer_of(a: Action) -> Option<(u32, u64)> {
    match a {
        Action::Notify { .. } => None,
        Action::Transfer { recipient, amount } => Some((recipient, amount)),
    }
}

/// The identifier of the task that `owner` tags with `tag`: one per pair.
pub fn task_id(owner: u32, tag: u32) -> (r: u64)
    ensures
        r == id_of(owner, tag),
{
    proof {
        assert(owner as nat * 0x1_0000_0000 + tag as nat <= u64::MAX) by (nonlinear_arith)
            requires
                owner <= u32::MAX,
                tag <= u32::MAX,
        ;
    }
    owner as u64 * 0x1_0000_0000 + tag as u64
}

fn contains(v: &Vec<u64>, x: u64) -> (r: bool)
    ensures
        r == v@.contains(x),
{
    let mut i: usize = 0;
    while i < v.len()
        invariant
            i <= v.len(),
            forall|k: int| 0 <= k < i ==> v@[k] != x,
        decreases v.len() - i,
    {
        if v[i] == x {
            return true;
        }
        i = i + 1;
    }
    false
}

fn remove_all(v: &Vec<u64>, id: u64) -> (r: Vec<u64>)
    ensures
        r@ == without(v@, id),
{
    let mut r: Vec<u64> = Vec::new();
    let mut i: usize = 0;
    while i < v.len()
        invariant
            i <= v.len(),
            r@ == without(v@.subrange(0, i as int), id),
        decreases v.len() - i,
    {
        assert(v@.subrange(0, i + 1).drop_last() =~= v@.subrange(0, i as int));
        if v[i] != id {
            r.push(v[i]);
        }
        i = i + 1;
    }
    assert(v@.subrange(0, v.len() as int) =~= v@);
    r
}

/// The distinct slots of `times`, as `slots_of` gives them.
fn slots_for(times: &Vec<u64>, granularity: u64) -> (r: Vec<u64>)
    requires
        granularity > 0,
    ensures
        r@ == slots_of(times@, granularity as nat),
{
    let mut r: Vec<u64> = Vec::new();
    let mut i: usize = 0;
    while i < times.len()
        invariant
            i <= times.len(),
            granularity > 0,
            r@ == slots_of(times@.subrange(0, i as int), granularity as nat),
        decreases times.len() - i,
    {
        assert(times@.subrange(0, i + 1).drop_last() =~= times@.subrange(0, i as int));
        let s = times[i] / granularity;
        if !contains(&r, s) {
            r.push(s);
        }
        i = i + 1;
    }
    assert(times@.subrange(0, times.len() as int) =~= times@);
    r
}

impl Scheduler {
    /// The scheduler is in a reachable state.
    pub closed spec fn wf(&self) -> bool {
        model_inv(self@)
    }

    /// A well-formed scheduler's model meets `model_inv`, so the laws apply to it.
    pub proof fn lemma_wf_inv(&self)
        requires
            self.wf(),
        ensures
            model_inv(self@),
    {
    }

    fn balance_of(&self, a: u32) -> (r: u64)
        ensures
            r == balance(self@.balances, a),
    {
        match self.balances.get(&a) {
            Some(v) => *v,
            None => 0,
        }
    }

    /// Performs the action of a task of `owner` whose transfer part is `tr`.
    fn perform_action(&mut self, owner: u32, tr: Option<(u32, u64)>, Ghost(action): Ghost<Action>) -> (r: Outcome)
        requires
            tr == transfer_of(action),
        ensures
            (final(self)@.balances, r) == perform(old(self)@.balances, owner, action),
            final(self)@ == (SchedulerModel { balances: final(self)@.balances, ..old(self)@ }),
    {
        match tr {
            None => Outcome::Executed,
            Some((recipient, amount)) => {
                let from = self.balance_of(owner);
                if from < amount {
                    Outcome::InsufficientFunds
                } else if recipient == owner {
                    Outcome::Executed
                } else {
                    let to = self.balance_of(recipient);
                    if to > u64::MAX - amount {
                        Outcome::BalanceOverflow
                    } else {
                        self.balances.insert(owner, from - amount);
                        self.balances.insert(recipient, to + amount);
                        Outcome::Executed
                    }
                }
            },
        }
    }

    /// Counts one entry of the live task `id` as run, retiring the task when
    /// it was the last. Returns whether it retired.
    fn consume_entry(&mut self, id: u64) -> (retired: bool)
        requires
            model_inv(old(self)@),
            old(self)@.tasks.contains_key(id),
        ensures
            retired == (old(self)@.tasks[id].remaining <= 1),
            final(self)@ == (SchedulerModel {
                index: if retired {
                    remove_from_slots(old(self)@.index, old(self)@.tasks[id].slots@, id)
                } else {
                    old(self)@.index
                },
                tasks: if retired {
                    old(self)@.tasks.remove(id)
                } else {
                    old(self)@.tasks.insert(
                        id,
                        Task { remaining: (old(self)@.tasks[id].remaining - 1) as u64, ..old(self)@.tasks[id] },
                    )
                },
                ..old(self)@
            }),
    {
        let ghost before = self.tasks@;
        match self.tasks.remove(&id) {
            Some(mut t) => {
                if t.remaining <= 1 {
                    self.purge_slots(&t.slots, id);
                    true
                } else {
                    t.remaining = t.remaining - 1;
                    self.tasks.insert(id, t);
                    assert(self.tasks@ =~= before.insert(id, t));
                    false
                }
            },
            None => true,
        }
    }

    /// An empty scheduler at time zero.
    pub fn new(capacity: u64, granularity: u64, notify_cost: u64, transfer_cost: u64) -> (r: Scheduler)
        requires
            granularity > 0,
        ensures
            r.wf(),
            r@.capacity == capacity,
            r@.granularity == granularity,
            r@.notify_cost == notify_cost,
            r@.transfer_cost == transfer_cost,
            r@.now == 0,
            r@.tasks == Map::<u64, Task>::empty(),
            r@.index == Map::<u64, Seq<u64>>::empty(),
            r@.queue == Seq::<u64>::empty(),
            r@.queue_slot == None::<u64>,
            r@.backlog == Seq::<Seq<u64>>::empty(),
            r@.balances == Map::<u32, u64>::empty(),
    {
        let r = Scheduler {
            capacity,
            granularity,
            notify_cost,
            transfer_cost,
            now: 0,
            tasks: HashMap::new(),
            index: HashMap::new(),
            queue: Vec::new(),
            queue_slot: None,
            backlog: Vec::new(),
            balances: HashMap::new(),
        };
        assert(r@.index =~= Map::<u64, Seq<u64>>::empty());
        assert(r@.backlog =~= Seq::<Seq<u64>>::empty());
        r
    }

    /// Sets the balance of `account`.
    pub fn set_balance(&mut self, account: u32, amount: u64)
        requires
            old(self).wf(),
        ensures
            final(self).wf(),
            final(self)@ == (SchedulerModel {
                balances: old(self)@.balances.insert(account, amount),
                ..old(self)@
            }),
    {
        self.balances.insert(account, amount);
    }

    /// The balance of `account`.
    pub fn balance(&self, account: u32) -> (r: u64)
        ensures
            r == balance(self@.balances, account),
    {
        self.balance_of(account)
    }

    /// Runs the execution queue under `budget`. Returns what is left of the
    /// budget and the events, in order.
    pub fn run_queue(&mut self, budget: u64) -> (r: (u64, Vec<Event>))
        requires
            old(self).wf(),
        ensures
            final(self).wf(),
            (final(self)@, r.0 as nat, r.1@) == run_queue_spec(old(self)@, budget as nat),
    {
        let ghost m0 = self@;
        let mut list: Vec<u64> = Vec::new();
        std::mem::swap(&mut list, &mut self.queue);
        proof {
            lemma_drain_frame(m0, self@, list@, budget as nat);
        }
        let r = self.drain_list(&mut list, budget);
        let ghost mid = self@;
        self.queue = list;
        proof {
            lemma_inv_same(self@, mid);
        }
        r
    }

    /// Runs the oldest backlog batch under `budget`. Returns what is left of
    /// the budget and the events, in order.
    pub fn run_missed(&mut self, budget: u64) -> (r: (u64, Vec<Event>))
        requires
            old(self).wf(),
        ensures
            final(self).wf(),
            (final(self)@, r.0 as nat, r.1@) == run_missed_spec(old(self)@, budget as nat),
    {
        if self.backlog.len() == 0 {
            return (budget, Vec::new());
        }
        let ghost m0 = self@;
        let mut batch = self.backlog.remove(0);
        assert(self.backlog@.map_values(|v: Vec<u64>| v@) =~= m0.backlog.drop_first());
        proof {
            lemma_drain_frame(m0, self@, batch@, budget as nat);
        }
        let r = self.drain_list(&mut batch, budget);
        let ghost rest = batch@;
        let ghost bb = self.backlog@;
        assert(bb.map_values(|v: Vec<u64>| v@) == m0.backlog.drop_first());
        assert forall|i: int| 0 <= i < bb.len() implies #[trigger] bb[i]@ == m0.backlog[i + 1] by {
            assert(bb.map_values(|v: Vec<u64>| v@)[i] == m0.backlog.drop_first()[i]);
        }
        let ghost mid = self@;
        self.backlog.insert(0, batch);
        assert(self.backlog@.map_values(|v: Vec<u64>| v@) =~= m0.backlog.update(0, rest));
        proof {
            lemma_inv_same(self@, mid);
        }
        r
    }

    /// Starts the tick at time `now`, as `reconcile_spec` says.
    pub fn reconcile(&mut self, now: u64)
        requires
            old(self).wf(),
            now >= old(self)@.now,
        ensures
            final(self).wf(),
            final(self)@ == reconcile_spec(old(self)@, now as nat),
    {
        let ghost m0 = self@;
        let slot = now / self.granularity;
        if self.queue.len() > 0 {
            let ghost b0 = self.backlog@;
            let mut q: Vec<u64> = Vec::new();
            std::mem::swap(&mut q, &mut self.queue);
            self.backlog.push(q);
            assert(self.backlog@.map_values(|v: Vec<u64>| v@) =~= b0.map_values(|v: Vec<u64>| v@).push(q@));
        }
        assert(self.backlog@.map_values(|v: Vec<u64>| v@) == swept(m0));
        if self.backlog.len() > 0 && self.backlog[0].len() == 0 {
            let ghost b1 = self.backlog@;
            self.backlog.remove(0);
            assert(self.backlog@.map_values(|v: Vec<u64>| v@) =~= b1.map_values(|v: Vec<u64>| v@).drop_first());
        }
        let q = match self.index.remove(&slot) {
            Some(v) => v,
            None => Vec::new(),
        };
        assert(index_view(self.index@) =~= m0.index.remove(slot));
        self.queue = q;
        self.queue_slot = Some(slot);
        self.now = now;
        assert(self.queue@ =~= slot_ids(m0.index, slot));
    }

    /// One tick at time `now` with cost budget `budget`: reconcile, run the
    /// queue, then the oldest backlog batch. Returns the events, in order.
    pub fn tick(&mut self, now: u64, budget: u64) -> (r: Vec<Event>)
        requires
            old(self).wf(),
            now >= old(self)@.now,
        ensures
            final(self).wf(),
            (final(self)@, r@) == tick_spec(old(self)@, now as nat, budget as nat),
    {
        self.reconcile(now);
        let (b, mut e1) = self.run_queue(budget);
        let (_, mut e2) = self.run_missed(b);
        e1.append(&mut e2);
        e1
    }

    /// The ids in the execution queue, in order.
    pub fn queue(&self) -> (r: Vec<u64>)
        ensures
            r@ == self@.queue,
    {
        self.queue.clone()
    }

    /// The slot the execution queue was filled from, if any.
    pub fn queue_slot(&self) -> (r: Option<u64>)
        ensures
            r == self@.queue_slot,
    {
        self.queue_slot
    }

    /// The number of backlog batches.
    pub fn backlog_len(&self) -> (r: usize)
        ensures
            r == self@.backlog.len(),
    {
        self.backlog.len()
    }

    /// The backlog batch at position `i`, oldest first.
    pub fn backlog_batch(&self, i: usize) -> (r: Vec<u64>)
        requires
            i < self@.backlog.len(),
        ensures
            r@ == self@.backlog[i as int],
    {
        self.backlog[i].clone()
    }

    /// The ids due in slot `s`, in the order they were scheduled.
    pub fn slot_entries(&self, s: u64) -> (r: Vec<u64>)
        ensures
            r@ == slot_ids(self@.index, s),
    {
        match self.index.get(&s) {
            Some(v) => v.clone(),
            None => Vec::new(),
        }
    }

    /// Whether `id` names a live task.
    pub fn is_live(&self, id: u64) -> (r: bool)
        ensures
            r == self@.tasks.contains_key(id),
    {
        self.tasks.contains_key(&id)
    }

    /// The number of live tasks.
    pub fn task_count(&self) -> (r: usize)
        ensures
            r == self@.tasks.len(),
    {
        self.tasks.len()
    }

    fn slot_len(&self, s: u64) -> (r: usize)
        ensures
            r == slot_ids(self@.index, s).len(),
    {
        match self.index.get(&s) {
            Some(v) => v.len(),
            None => 0,
        }
    }

    /// Schedules `action` for `owner` under `tag`, once in the slot of each
    /// of `times`. Fails, changing nothing, with `PastTime` when a time is not
    /// after the current tick's time, else with `DuplicateTask` when the id is
    /// live, else with `SlotFull` when one of the slots is at capacity.
    pub fn schedule(&mut self, owner: u32, tag: u32, action: Action, times: &Vec<u64>) -> (r: Result<
        u64,
        ScheduleError,
    >)
        requires
            old(self).wf(),
            times@.len() > 0,
        ensures
            final(self).wf(),
            ({
                let m = old(self)@;
                let id = id_of(owner, tag);
                let slots = slots_of(times@, m.granularity);
                &&& (r == Err::<u64, ScheduleError>(ScheduleError::PastTime)) == has_past_time(
                    times@,
                    m.now,
                )
                &&& (r == Err::<u64, ScheduleError>(ScheduleError::DuplicateTask)) == (!has_past_time(
                    times@,
                    m.now,
                ) && m.tasks.contains_key(id))
                &&& (r == Err::<u64, ScheduleError>(ScheduleError::SlotFull)) == (!has_past_time(
                    times@,
                    m.now,
                ) && !m.tasks.contains_key(id) && has_full_slot(m, slots))
                &&& r is Ok == (!has_past_time(times@, m.now) && !m.tasks.contains_key(id)
                    && !has_full_slot(m, slots))
                &&& r is Err ==> final(self)@ == m
                &&& r is Ok ==> {
                    &&& r == Ok::<u64, ScheduleError>(id)
                    &&& final(self)@.tasks.len() == m.tasks.len() + 1
                    &&& final(self)@ == (SchedulerModel {
                        tasks: m.tasks.insert(id, final(self)@.tasks[id]),
                        index: add_to_slots(m.index, slots, id),
                        ..m
                    })
                    &&& final(self)@.tasks[id].owner == owner
                    &&& final(self)@.tasks[id].slots@ == slots
                    &&& final(self)@.tasks[id].remaining == slots.len()
                    &&& final(self)@.tasks[id].action == action
                }
            }),
    {
        let ghost m = self@;
        let mut i: usize = 0;
        while i < times.len()
            invariant
                i <= times.len(),
                forall|k: int| 0 <= k < i ==> times@[k] > m.now,
                self@ == m,
                model_inv(m),
            decreases times.len() - i,
        {
            if times[i] <= self.now {
                return Err(ScheduleError::PastTime);
            }
            i = i + 1;
        }
        let id = task_id(owner, tag);
        if self.tasks.contains_key(&id) {
            return Err(ScheduleError::DuplicateTask);
        }
        let slots = slots_for(times, self.granularity);
        proof {
            lemma_slots_distinct(times@, m.granularity);
        }
        let mut j: usize = 0;
        while j < slots.len()
            invariant
                j <= slots.len(),
                self@ == m,
                model_inv(m),
                !has_past_time(times@, m.now),
                !m.tasks.contains_key(id),
                id == id_of(owner, tag),
                slots@ == slots_of(times@, m.granularity),
                forall|k: int| 0 <= k < j ==> slot_ids(m.index, #[trigger] slots@[k]).len() < m.capacity,
            decreases slots.len() - j,
        {
            if self.slot_len(slots[j]) as u64 >= self.capacity {
                assert(has_full_slot(m, slots@));
                assert(slots@ == slots_of(times@, m.granularity));
                return Err(ScheduleError::SlotFull);
            }
            j = j + 1;
        }
        assert(slots@.len() > 0) by {
            assert(slots_of(times@, m.granularity).len() > 0) by {
                reveal_with_fuel(slots_of, 2);
                assert(times@.len() > 0);
                if !slots_of(times@.drop_last(), m.granularity).contains(
                    slot_of(times@.last() as nat, m.granularity) as u64,
                ) {
                } else {
                }
            }
        }
        assert(add_to_slots(m.index, slots@.subrange(0, 0), id) =~= m.index);
        let mut k: usize = 0;
        while k < slots.len()
            invariant
                k <= slots.len(),
                slots@.no_duplicates(),
                forall|q: int| 0 <= q < slots.len() ==> slot_ids(m.index, #[trigger] slots@[q]).len() < m.capacity,
                self@ == (SchedulerModel { index: add_to_slots(m.index, slots@.subrange(0, k as int), id), ..m }),
                model_inv(m),
            decreases slots.len() - k,
        {
            let s = slots[k];
            let ghost sub = slots@.subrange(0, k as int);
            let ghost before = self.index@;
            assert(!sub.contains(s)) by {
                if sub.contains(s) {
                    let q = choose|q: int| 0 <= q < sub.len() && sub[q] == s;
                    assert(slots@[q] == slots@[k as int]);
                }
            }
            assert(add_to_slots(m.index, sub, id).contains_key(s) == m.index.contains_key(s));
            assert(index_view(before).contains_key(s) == before.contains_key(s));
            let mut v = match self.index.remove(&s) {
                Some(v) => {
                    assert(index_view(before)[s] == v@);
                    v
                },
                None => Vec::new(),
            };
            assert(v@ == slot_ids(m.index, s));
            v.push(id);
            self.index.insert(s, v);
            assert(slots@.subrange(0, k + 1) =~= sub.push(s));
            proof {
                let after = self.index@;
                let goal = add_to_slots(m.index, sub.push(s), id);
                let prev = add_to_slots(m.index, sub, id);
                assert(index_view(before) == prev);
                assert forall|x: u64| #[trigger] goal.contains_key(x) implies index_view(after).contains_key(x)
                    && index_view(after)[x] == goal[x] by {
                    lemma_push_contains(sub, s, x);
                    if x != s {
                        assert(prev.contains_key(x));
                        assert(index_view(before)[x] == prev[x]);
                    }
                }
                assert forall|x: u64| #[trigger] index_view(after).contains_key(x) implies goal.contains_key(x) by {
                    lemma_push_contains(sub, s, x);
                    if x != s {
                        assert(index_view(before).contains_key(x));
                    }
                }
                assert(index_view(after) =~= goal);
            }
            k = k + 1;
        }
        assert(slots@.subrange(0, slots.len() as int) =~= slots@);
        let n = slots.len() as u64;
        let t = Task { owner, slots, remaining: n, action };
        self.tasks.insert(id, t);
        proof {
            lemma_schedule_inv(m, id, t);
            lemma_inv_same(self@, (SchedulerModel { tasks: m.tasks.insert(id, t), index: add_to_slots(m.index, t.slots@, id), ..m }));
        }
        Ok(id)
    }

    /// Cancels the live task `id` of `owner`, as `cancel_spec` says. Fails,
    /// changing nothing, with `NotFound` when `id` is not live, else with
    /// `NotOwner` when `owner` does not own it.
    pub fn cancel(&mut self, owner: u32, id: u64) -> (r: Result<(), CancelError>)
        requires
            old(self).wf(),
        ensures
            final(self).wf(),
            (r == Err::<(), CancelError>(CancelError::NotFound)) == !old(self)@.tasks.contains_key(id),
            (r == Err::<(), CancelError>(CancelError::NotOwner)) == (old(self)@.tasks.contains_key(id)
                && old(self)@.tasks[id].owner != owner),
            r is Err ==> final(self)@ == old(self)@,
            r is Ok ==> final(self)@ == cancel_spec(old(self)@, id),
            r is Ok ==> final(self)@.tasks.len() + 1 == old(self)@.tasks.len(),
    {
        let is_owner = match self.tasks.get(&id) {
            None => {
                return Err(CancelError::NotFound);
            },
            Some(t) => t.owner == owner,
        };
        if !is_owner {
            return Err(CancelError::NotOwner);
        }
        self.remove_task(id);
        Ok(())
    }

    /// Cancels the live task `id` whoever owns it, as `cancel_spec` says.
    /// Fails, changing nothing, with `NotFound` when `id` is not live.
    pub fn force_cancel(&mut self, id: u64) -> (r: Result<(), CancelError>)
        requires
            old(self).wf(),
        ensures
            final(self).wf(),
            (r == Err::<(), CancelError>(CancelError::NotFound)) == !old(self)@.tasks.contains_key(id),
            r is Err ==> r == Err::<(), CancelError>(CancelError::NotFound) && final(self)@ == old(self)@,
            r is Ok ==> final(self)@ == cancel_spec(old(self)@, id),
            r is Ok ==> final(self)@.tasks.len() + 1 == old(self)@.tasks.len(),
    {
        if !self.tasks.contains_key(&id) {
            return Err(CancelError::NotFound);
        }
        self.remove_task(id);
        Ok(())
    }

    /// Takes `id` out of each slot of `slots` in the time index.
    fn purge_slots(&mut self, slots: &Vec<u64>, id: u64)
        requires
            slots@.no_duplicates(),
        ensures
            final(self)@ == (SchedulerModel { index: remove_from_slots(old(self)@.index, slots@, id), ..old(self)@ }),
    {
        let ghost m = self@;
        assert(remove_from_slots(m.index, slots@.subrange(0, 0), id) =~= m.index);
        let mut k: usize = 0;
        while k < slots.len()
            invariant
                k <= slots.len(),
                slots@.no_duplicates(),
                self@ == (SchedulerModel {
                    index: remove_from_slots(m.index, slots@.subrange(0, k as int), id),
                    ..m
                }),
            decreases slots.len() - k,
        {
            let s = slots[k];
            let ghost sub = slots@.subrange(0, k as int);
            assert(!sub.contains(s)) by {
                if sub.contains(s) {
                    let q = choose|q: int| 0 <= q < sub.len() && sub[q] == s;
                    assert(slots@[q] == slots@[k as int]);
                }
            }
            assert(slots@.subrange(0, k + 1) =~= sub.push(s));
            let ghost before = self.index@;
            assert(index_view(before).contains_key(s) == before.contains_key(s));
            match self.index.remove(&s) {
                Some(v) => {
                    assert(index_view(before)[s] == v@);
                    let w = remove_all(&v, id);
                    self.index.insert(s, w);
                },
                None => {},
            }
            proof {
                let after = self.index@;
                let goal = remove_from_slots(m.index, sub.push(s), id);
                let prev = remove_from_slots(m.index, sub, id);
                assert(index_view(before) == prev);
                assert forall|x: u64| #[trigger] goal.contains_key(x) implies index_view(after).contains_key(x)
                    && index_view(after)[x] == goal[x] by {
                    lemma_push_contains(sub, s, x);
                    assert(prev.contains_key(x));
                    if x != s {
                        assert(index_view(before)[x] == prev[x]);
                    }
                }
                assert forall|x: u64| #[trigger] index_view(after).contains_key(x) implies goal.contains_key(x) by {
                    if x != s {
                        assert(index_view(before).contains_key(x));
                    }
                }
                assert(index_view(after) =~= goal);
            }
            k = k + 1;
        }
        assert(slots@.subrange(0, slots.len() as int) =~= slots@);
    }

    fn remove_task(&mut self, id: u64)
        requires
            old(self).wf(),
            old(self)@.tasks.contains_key(id),
        ensures
            final(self).wf(),
            final(self)@ == cancel_spec(old(self)@, id),
    {
        let ghost m = self@;
        let t = match self.tasks.remove(&id) {
            Some(t) => t,
            None => {
                return;
            },
        };
        let slots = t.slots;
        self.purge_slots(&slots, id);
        proof {
            lemma_retire_inv(m, id);
        }
        let q = remove_all(&self.queue, id);
        self.queue = q;
        let ghost b0 = m.backlog;
        assert forall|k: int| 0 <= k < b0.len() implies #[trigger] self.backlog@[k]@ == b0[k] by {
            assert(self@.backlog[k] == self.backlog@[k]@);
        }
        let mut i: usize = 0;
        while i < self.backlog.len()
            invariant
                i <= self.backlog@.len(),
                self.backlog@.len() == b0.len(),
                b0 == m.backlog,
                self@ == (SchedulerModel {
                    tasks: m.tasks.remove(id),
                    index: remove_from_slots(m.index, slots@, id),
                    queue: without(m.queue, id),
                    backlog: self@.backlog,
                    ..m
                }),
                forall|k: int| 0 <= k < i ==> #[trigger] self.backlog@[k]@ == without(b0[k], id),
                forall|k: int| i <= k < b0.len() ==> #[trigger] self.backlog@[k]@ == b0[k],
            decreases b0.len() - i,
        {
            let w = remove_all(&self.backlog[i], id);
            let ghost before = self.backlog@;
            self.backlog.set(i, w);
            assert forall|k: int| 0 <= k < b0.len() && k != i implies #[trigger] self.backlog@[k]@ == before[k]@ by {}
            i = i + 1;
        }
        assert forall|k: int| 0 <= k < b0.len() implies #[trigger] self@.backlog[k] == without(b0[k], id) by {
            assert(self@.backlog[k] == self.backlog@[k]@);
        }
        assert(self@.backlog =~= backlog_without(m.backlog, id));
        proof {
            lemma_inv_same(self@, (SchedulerModel { tasks: m.tasks.remove(id), index: remove_from_slots(m.index, m.tasks[id].slots@, id), ..m }));
        }
    }

    /// Drains `list` from the front under `budget`, as `drain` says.
    fn drain_list(&mut self, list: &mut Vec<u64>, budget: u64) -> (r: (u64, Vec<Event>))
        requires
            old(self).wf(),
        ensures
            final(self).wf(),
            ({
                let (m, rest, b, es) = drain(old(self)@, old(list)@, budget as nat);
                final(self)@ == m && final(list)@ == rest && r.0 == b && r.1@ == es
            }),
    {
        let ghost target = drain(self@, list@, budget as nat);
        let mut b: u64 = budget;
        let mut events: Vec<Event> = Vec::new();
        let mut go = true;
        while go
            invariant
                self.wf(),
                ({
                    let d = drain(self@, list@, b as nat);
                    target == (d.0, d.1, d.2, events@ + d.3)
                }),
                !go ==> drain(self@, list@, b as nat) == (self@, list@, b as nat, Seq::<Event>::empty()),
            decreases list.len() + (if go { 1int } else { 0int }),
        {
            if list.len() == 0 {
                go = false;
            } else {
                let id = list[0];
                let info: Option<(u32, u64, Option<(u32, u64)>)> = match self.tasks.get(&id) {
                    Some(t) => match &t.action {
                        Action::Notify { .. } => Some((t.owner, self.notify_cost, None)),
                        Action::Transfer { recipient, amount } => Some(
                            (t.owner, self.transfer_cost, Some((*recipient, *amount))),
                        ),
                    },
                    None => None,
                };
                match info {
                    None => {
                        let ghost l0 = list@;
                        list.remove(0);
                        assert(list@ =~= l0.drop_first());
                    },
                    Some((owner, cost, tr)) => {
                        if cost > b {
                            go = false;
                        } else {
                            let ghost m0 = self@;
                            let ghost l0 = list@;
                            let ghost t = self@.tasks[id];
                            list.remove(0);
                            assert(list@ =~= l0.drop_first());
                            let outcome = self.perform_action(owner, tr, Ghost(t.action));
                            let retired = self.consume_entry(id);
                            let e = Event { id, outcome, retired };
                            assert(run_entry(m0, id) == (self@, e));
                            proof {
                                lemma_run_entry_inv(m0, id);
                            }
                            events.push(e);
                            b = b - cost;
                            proof {
                                let d = drain(self@, list@, b as nat);
                                assert(events@ + d.3 =~= (events@.drop_last() + (seq![e] + d.3)));
                            }
                        }
                    },
                }
            }
        }
        (b, events)
    }
}

} // verus!
