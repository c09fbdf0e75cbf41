use automation_time::scheduler::{
    task_id, Action, CancelError, Event, Outcome, ScheduleError, Scheduler,
};

fn notify() -> Action {
    Action::Notify { payload: vec![1, 2, 3] }
}

fn transfer(recipient: u32, amount: u64) -> Action {
    Action::Transfer { recipient, amount }
}

#[test]
fn task_id_joins_owner_and_tag() {
    assert_eq!(task_id(0, 0), 0);
    assert_eq!(task_id(1, 2), (1u64 << 32) + 2);
    assert_eq!(task_id(u32::MAX, u32::MAX), u64::MAX);
    assert_ne!(task_id(1, 2), task_id(2, 1));
}

#[test]
fn slot_takes_capacity_tasks_then_refuses() {
    let mut s = Scheduler::new(3, 10, 1, 1);
    for tag in 0..3u32 {
        assert_eq!(s.schedule(7, tag, notify(), &vec![100]), Ok(task_id(7, tag)));
    }
    assert_eq!(s.schedule(7, 3, notify(), &vec![105]), Err(ScheduleError::SlotFull));
    assert_eq!(s.slot_entries(10).len(), 3);
    assert_eq!(s.task_count(), 3);
    // another slot is unaffected
    assert_eq!(s.schedule(7, 3, notify(), &vec![110]), Ok(task_id(7, 3)));
}

#[test]
fn full_slot_refuses_whole_multi_time_request() {
    let mut s = Scheduler::new(1, 10, 1, 1);
    assert!(s.schedule(1, 0, notify(), &vec![200]).is_ok());
    assert_eq!(s.schedule(1, 1, notify(), &vec![100, 200]), Err(ScheduleError::SlotFull));
    assert!(s.slot_entries(10).is_empty());
    assert!(!s.is_live(task_id(1, 1)));
}

#[test]
fn different_owners_share_slot_capacity() {
    let mut s = Scheduler::new(2, 10, 1, 1);
    assert!(s.schedule(1, 0, notify(), &vec![300]).is_ok());
    assert!(s.schedule(2, 0, notify(), &vec![300]).is_ok());
    assert_eq!(s.schedule(1, 1, notify(), &vec![300]), Err(ScheduleError::SlotFull));
    assert_eq!(s.schedule(2, 1, notify(), &vec![300]), Err(ScheduleError::SlotFull));
}

#[test]
fn past_and_duplicate_are_refused() {
    let mut s = Scheduler::new(5, 10, 1, 1);
    assert_eq!(s.schedule(1, 0, notify(), &vec![0]), Err(ScheduleError::PastTime));
    assert!(s.schedule(1, 0, notify(), &vec![50]).is_ok());
    assert_eq!(s.schedule(1, 0, notify(), &vec![60]), Err(ScheduleError::DuplicateTask));
    s.tick(40, 0);
    assert_eq!(s.schedule(1, 1, notify(), &vec![60, 40]), Err(ScheduleError::PastTime));
    assert_eq!(s.schedule(1, 1, notify(), &vec![41]), Ok(task_id(1, 1)));
}

#[test]
fn times_in_one_slot_count_once() {
    let mut s = Scheduler::new(5, 10, 1, 1);
    let id = s.schedule(1, 0, notify(), &vec![100, 105, 200]).unwrap();
    assert_eq!(s.slot_entries(10), vec![id]);
    assert_eq!(s.slot_entries(20), vec![id]);
    let e = s.tick(100, 10);
    assert_eq!(e, vec![Event { id, outcome: Outcome::Executed, retired: false }]);
    assert!(s.is_live(id));
    let e = s.tick(200, 10);
    assert_eq!(e, vec![Event { id, outcome: Outcome::Executed, retired: true }]);
    assert!(!s.is_live(id));
}

#[test]
fn notify_runs_in_its_slot() {
    let mut s = Scheduler::new(4, 10, 5, 20);
    let id = s.schedule(9, 1, notify(), &vec![1000]).unwrap();
    let e = s.tick(1000, 5);
    assert_eq!(s.queue_slot(), Some(100));
    assert_eq!(e, vec![Event { id, outcome: Outcome::Executed, retired: true }]);
    assert!(s.queue().is_empty());
    assert_eq!(s.backlog_len(), 0);
    assert_eq!(s.task_count(), 0);
}

#[test]
fn budget_leaves_tasks_queued_then_missed() {
    let mut s = Scheduler::new(4, 10, 1, 10);
    s.set_balance(1, 1000);
    let a = s.schedule(1, 0, transfer(2, 5), &vec![500]).unwrap();
    let b = s.schedule(1, 1, transfer(2, 5), &vec![500]).unwrap();
    let c = s.schedule(1, 2, transfer(2, 5), &vec![500]).unwrap();
    let e = s.tick(500, 15);
    assert_eq!(e, vec![Event { id: a, outcome: Outcome::Executed, retired: true }]);
    assert_eq!(s.queue(), vec![b, c]);
    s.reconcile(510);
    assert!(s.queue().is_empty());
    assert_eq!(s.backlog_len(), 1);
    assert_eq!(s.backlog_batch(0), vec![b, c]);
    assert!(s.slot_entries(50).is_empty());
    assert_eq!(s.balance(1), 995);
    assert_eq!(s.balance(2), 5);
}

#[test]
fn missed_batch_runs_oldest_first_and_is_shifted() {
    let mut s = Scheduler::new(4, 10, 10, 10);
    let a = s.schedule(1, 0, notify(), &vec![500]).unwrap();
    let b = s.schedule(1, 1, notify(), &vec![500]).unwrap();
    let c = s.schedule(1, 2, notify(), &vec![510]).unwrap();
    let d = s.schedule(1, 3, notify(), &vec![510]).unwrap();
    assert!(s.tick(500, 0).is_empty());
    // slot 51: a and b are swept; the budget runs c and d, then a from the backlog
    let e = s.tick(510, 30);
    assert_eq!(e.iter().map(|x| x.id).collect::<Vec<_>>(), vec![c, d, a]);
    assert!(s.queue().is_empty());
    assert_eq!(s.backlog_len(), 1);
    assert_eq!(s.backlog_batch(0), vec![b]);
    // next tick: nothing to sweep; b runs and its batch is used up
    let e = s.tick(520, 10);
    assert_eq!(e.iter().map(|x| x.id).collect::<Vec<_>>(), vec![b]);
    assert_eq!(s.backlog_len(), 1);
    assert!(s.backlog_batch(0).is_empty());
    // the used-up batch is dropped
    assert!(s.tick(530, 10).is_empty());
    assert_eq!(s.backlog_len(), 0);
    assert_eq!(s.task_count(), 0);
}

#[test]
fn newer_batch_waits_for_oldest() {
    let mut s = Scheduler::new(4, 10, 10, 10);
    let a = s.schedule(1, 0, notify(), &vec![500]).unwrap();
    let b = s.schedule(1, 1, notify(), &vec![500]).unwrap();
    let c = s.schedule(1, 2, notify(), &vec![510]).unwrap();
    assert!(s.tick(500, 0).is_empty());
    assert!(s.tick(510, 0).is_empty());
    assert!(s.tick(520, 0).is_empty());
    assert_eq!(s.backlog_len(), 2);
    assert_eq!(s.backlog_batch(0), vec![a, b]);
    assert_eq!(s.backlog_batch(1), vec![c]);
    // budget is left after the oldest batch, but the newer one waits
    let e = s.tick(530, 30);
    assert_eq!(e.iter().map(|x| x.id).collect::<Vec<_>>(), vec![a, b]);
    let e = s.tick(540, 30);
    assert_eq!(e.iter().map(|x| x.id).collect::<Vec<_>>(), vec![c]);
}

#[test]
fn fifo_within_a_slot() {
    let mut s = Scheduler::new(5, 10, 1, 1);
    let ids: Vec<u64> = (0..4u32).map(|t| s.schedule(3, t, notify(), &vec![70]).unwrap()).collect();
    assert_eq!(s.slot_entries(7), ids);
    let e = s.tick(70, 100);
    assert_eq!(e.iter().map(|x| x.id).collect::<Vec<_>>(), ids);
}

#[test]
fn cancelled_task_never_runs() {
    let mut s = Scheduler::new(5, 10, 1, 1);
    let a = s.schedule(1, 0, notify(), &vec![80, 90]).unwrap();
    let b = s.schedule(1, 1, notify(), &vec![80]).unwrap();
    assert_eq!(s.cancel(1, a), Ok(()));
    assert!(!s.is_live(a));
    assert_eq!(s.slot_entries(8), vec![b]);
    assert!(s.slot_entries(9).is_empty());
    let e = s.tick(80, 100);
    assert_eq!(e.iter().map(|x| x.id).collect::<Vec<_>>(), vec![b]);
    assert!(s.tick(90, 100).is_empty());
}

#[test]
fn cancel_from_queue_and_backlog() {
    let mut s = Scheduler::new(5, 10, 1, 1);
    let a = s.schedule(1, 0, notify(), &vec![80]).unwrap();
    let b = s.schedule(1, 1, notify(), &vec![80]).unwrap();
    s.reconcile(80);
    assert_eq!(s.queue(), vec![a, b]);
    assert_eq!(s.force_cancel(a), Ok(()));
    assert_eq!(s.queue(), vec![b]);
    s.reconcile(90);
    assert_eq!(s.backlog_batch(0), vec![b]);
    assert_eq!(s.cancel(1, b), Ok(()));
    assert_eq!(s.backlog_len(), 1);
    assert!(s.backlog_batch(0).is_empty());
    assert!(s.run_missed(100).1.is_empty());
    assert_eq!(s.task_count(), 0);
}

#[test]
fn cancel_errors() {
    let mut s = Scheduler::new(5, 10, 1, 1);
    let a = s.schedule(1, 0, notify(), &vec![80]).unwrap();
    assert_eq!(s.cancel(2, a), Err(CancelError::NotOwner));
    assert_eq!(s.cancel(1, a + 1), Err(CancelError::NotFound));
    assert_eq!(s.force_cancel(a + 1), Err(CancelError::NotFound));
    assert!(s.is_live(a));
    assert_eq!(s.cancel(1, a), Ok(()));
    assert_eq!(s.cancel(1, a), Err(CancelError::NotFound));
}

#[test]
fn failed_transfer_is_consumed() {
    let mut s = Scheduler::new(5, 10, 1, 1);
    s.set_balance(1, 3);
    let a = s.schedule(1, 0, transfer(2, 5), &vec![80]).unwrap();
    let b = s.schedule(1, 1, notify(), &vec![80]).unwrap();
    let e = s.tick(80, 10);
    assert_eq!(
        e,
        vec![
            Event { id: a, outcome: Outcome::InsufficientFunds, retired: true },
            Event { id: b, outcome: Outcome::Executed, retired: true },
        ]
    );
    assert_eq!(s.balance(1), 3);
    assert_eq!(s.balance(2), 0);
    assert_eq!(s.task_count(), 0);
}

#[test]
fn transfer_that_would_overflow_fails() {
    let mut s = Scheduler::new(5, 10, 1, 1);
    s.set_balance(1, 10);
    s.set_balance(2, u64::MAX);
    let a = s.schedule(1, 0, transfer(2, 1), &vec![80]).unwrap();
    let e = s.tick(80, 10);
    assert_eq!(e, vec![Event { id: a, outcome: Outcome::BalanceOverflow, retired: true }]);
    assert_eq!(s.balance(1), 10);
}

#[test]
fn counts_are_conserved() {
    let mut s = Scheduler::new(5, 10, 1, 1);
    for t in 0..4u32 {
        s.schedule(1, t, notify(), &vec![80]).unwrap();
    }
    assert_eq!(s.task_count(), 4);
    s.cancel(1, task_id(1, 0)).unwrap();
    assert_eq!(s.task_count(), 3);
    let e = s.tick(80, 2);
    let retired = e.iter().filter(|x| x.retired).count();
    assert_eq!(retired, 2);
    assert_eq!(s.task_count(), 3 - retired);
    assert_eq!(s.queue().len(), 1);
}

#[test]
fn retired_task_leaves_its_other_slots() {
    let mut s = Scheduler::new(5, 10, 1, 1);
    // one entry is swept into the backlog, the other is never reached
    let a = s.schedule(1, 0, notify(), &vec![80, 500]).unwrap();
    assert!(s.tick(80, 0).is_empty());
    s.force_cancel(a).unwrap();
    assert!(s.slot_entries(50).is_empty());
    let b = s.schedule(1, 0, notify(), &vec![90]).unwrap();
    assert_eq!(a, b);
    let e = s.tick(90, 10);
    assert_eq!(e, vec![Event { id: b, outcome: Outcome::Executed, retired: true }]);
    assert_eq!(s.task_count(), 0);
}
