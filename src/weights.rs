//! Cost tables for the scheduler's operations.
use vstd::prelude::*;

verus! {

/// The cost of one storage read and one storage write.
#[derive(Clone, Copy, Debug, PartialEq, Eq, Structural)]
pub struct DbWeight {
    pub read: u64,
    pub write: u64,
}

/// `a + b`, capped at `u64::MAX`.
pub open spec fn sat_add(a: nat, b: nat) -> nat {
    if a + b > u64::MAX { u64::MAX as nat } else { a + b }
}

/// `a * b`, capped at `u64::MAX`.
pub open spec fn sat_mul(a: nat, b: nat) -> nat {
    if a * b > u64::MAX { u64::MAX as nat } else { a * b }
}

pub fn saturating_add(a: u64, b: u64) -> (r: u64)
    ensures
        r == sat_add(a as nat, b as nat),
{
    a.saturating_add(b)
}

pub fn saturating_mul(a: u64, b: u64) -> (r: u64)
    ensures
        r == sat_mul(a as nat, b as nat),
{
    if a == 0 || b == 0 {
        proof {
            assert(a * b == 0) by (nonlinear_arith)
                requires
                    a == 0 || b == 0,
            ;
        }
        0
    } else if a > u64::MAX / b {
        proof {
            assert(a * b > u64::MAX) by (nonlinear_arith)
                requires
                    a > u64::MAX / b,
                    b > 0,
            ;
        }
        u64::MAX
    } else {
        proof {
            assert(a * b <= u64::MAX) by (nonlinear_arith)
                requires
                    a <= u64::MAX / b,
                    b > 0,
            ;
        }
        a * b
    }
}

impl DbWeight {
    /// The cost of `r` reads.
    pub fn reads(&self, r: u64) -> (w: u64)
        ensures
            w == sat_mul(self.read as nat, r as nat),
    {
        saturating_mul(self.read, r)
    }

    /// The cost of `w` writes.
    pub fn writes(&self, w: u64) -> (c: u64)
        ensures
            c == sat_mul(self.write as nat, w as nat),
    {
        saturating_mul(self.write, w)
    }

    /// The cost of `r` reads and `w` writes.
    pub fn reads_writes(&self, r: u64, w: u64) -> (c: u64)
        ensures
            c == sat_add(sat_mul(self.read as nat, r as nat), sat_mul(self.write as nat, w as nat)),
    {
        saturating_add(self.reads(r), self.writes(w))
    }
}

/// The cost of each operation of the scheduler, given the cost of storage
/// reads and writes.
pub trait WeightInfo {
    fn schedule_notify_task_empty(db: &DbWeight) -> (r: u64)
        ensures
            r == sat_add(sat_add(38_000_000nat, sat_mul(db.read as nat, 5)), sat_mul(db.write as nat, 4)),
    ;

    fn schedule_notify_task_full(db: &DbWeight) -> (r: u64)
        ensures
            r == sat_add(sat_add(49_000_000nat, sat_mul(db.read as nat, 5)), sat_mul(db.write as nat, 4)),
    ;

    fn schedule_native_transfer_task_empty(db: &DbWeight) -> (r: u64)
        ensures
            r == sat_add(sat_add(38_000_000nat, sat_mul(db.read as nat, 5)), sat_mul(db.write as nat, 4)),
    ;

    fn schedule_native_transfer_task_full(db: &DbWeight) -> (r: u64)
        ensures
            r == sat_add(sat_add(49_000_000nat, sat_mul(db.read as nat, 5)), sat_mul(db.write as nat, 4)),
    ;

    fn cancel_scheduled_task(db: &DbWeight) -> (r: u64)
        ensures
            r == sat_add(sat_add(14_000_000nat, sat_mul(db.read as nat, 2)), sat_mul(db.write as nat, 2)),
    ;

    fn cancel_scheduled_task_full(db: &DbWeight) -> (r: u64)
        ensures
            r == sat_add(sat_add(23_000_000nat, sat_mul(db.read as nat, 2)), sat_mul(db.write as nat, 2)),
    ;

    fn cancel_overflow_task(db: &DbWeight) -> (r: u64)
        ensures
            r == sat_add(sat_add(23_000_000nat, sat_mul(db.read as nat, 3)), sat_mul(db.write as nat, 2)),
    ;

    fn force_cancel_scheduled_task(db: &DbWeight) -> (r: u64)
        ensures
            r == sat_add(sat_add(14_000_000nat, sat_mul(db.read as nat, 2)), sat_mul(db.write as nat, 2)),
    ;

    fn force_cancel_scheduled_task_full(db: &DbWeight) -> (r: u64)
        ensures
            r == sat_add(sat_add(23_000_000nat, sat_mul(db.read as nat, 2)), sat_mul(db.write as nat, 2)),
    ;

    fn force_cancel_overflow_task(db: &DbWeight) -> (r: u64)
        ensures
            r == sat_add(sat_add(23_000_000nat, sat_mul(db.read as nat, 3)), sat_mul(db.write as nat, 2)),
    ;

    fn run_notify_task(db: &DbWeight) -> (r: u64)
        ensures
            r == 7_000_000nat,
    ;

    fn run_native_transfer_task(db: &DbWeight) -> (r: u64)
        ensures
            r == sat_add(sat_add(26_000_000nat, sat_mul(db.read as nat, 2)), sat_mul(db.write as nat, 2)),
    ;

    fn update_task_queue_overhead(db: &DbWeight) -> (r: u64)
        ensures
            r == sat_add(2_000_000nat, sat_mul(db.read as nat, 1)),
    ;

    fn update_scheduled_task_queue(db: &DbWeight) -> (r: u64)
        ensures
            r == sat_add(sat_add(15_000_000nat, sat_mul(db.read as nat, 3)), sat_mul(db.write as nat, 3)),
    ;

    fn shift_missed_tasks(db: &DbWeight) -> (r: u64)
        ensures
            r == sat_add(sat_add(3_000_000nat, sat_mul(db.read as nat, 1)), sat_mul(db.write as nat, 1)),
    ;

    fn run_missed_tasks_many_found(db: &DbWeight, v: u32) -> (r: u64)
        ensures
            r == sat_add(sat_add(sat_add(0, sat_mul(10_187_000, v as nat)), sat_mul(db.read as nat, sat_mul(1, v as nat))), sat_mul(db.write as nat, sat_mul(1, v as nat))),
    ;

    fn run_missed_tasks_many_missing(db: &DbWeight, v: u32) -> (r: u64)
        ensures
            r == sat_add(sat_add(0, sat_mul(8_844_000, v as nat)), sat_mul(db.read as nat, sat_mul(1, v as nat))),
    ;

    fn run_tasks_many_found(db: &DbWeight, v: u32) -> (r: u64)
        ensures
            r == sat_add(sat_add(sat_add(0, sat_mul(29_531_000, v as nat)), sat_mul(db.read as nat, sat_mul(3, v as nat))), sat_mul(db.write as nat, sat_mul(3, v as nat))),
    ;

    fn run_tasks_many_missing(db: &DbWeight, v: u32) -> (r: u64)
        ensures
            r == sat_add(sat_add(0, sat_mul(9_000_000, v as nat)), sat_mul(db.read as nat, sat_mul(1, v as nat))),
    ;

    fn append_to_missed_tasks(db: &DbWeight, v: u32) -> (r: u64)
        ensures
            r == sat_add(sat_add(sat_add(sat_add(sat_add(1_396_000, sat_mul(1_812_000, v as nat)), sat_mul(db.read as nat, 1)), sat_mul(db.read as nat, sat_mul(1, v as nat))), sat_mul(db.write as nat, 1)), sat_mul(db.write as nat, sat_mul(1, v as nat))),
    ;
}

/// Measured costs of the scheduler's operations.
pub struct AutomationWeight;

impl WeightInfo for AutomationWeight {
    fn schedule_notify_task_empty(db: &DbWeight) -> (r: u64) {
        saturating_add(saturating_add(38_000_000u64, db.reads(5)), db.writes(4))
    }

    fn schedule_notify_task_full(db: &DbWeight) -> (r: u64) {
        saturating_add(saturating_add(49_000_000u64, db.reads(5)), db.writes(4))
    }

    fn schedule_native_transfer_task_empty(db: &DbWeight) -> (r: u64) {
        saturating_add(saturating_add(38_000_000u64, db.reads(5)), db.writes(4))
    }

    fn schedule_native_transfer_task_full(db: &DbWeight) -> (r: u64) {
        saturating_add(saturating_add(49_000_000u64, db.reads(5)), db.writes(4))
    }

    fn cancel_scheduled_task(db: &DbWeight) -> (r: u64) {
        saturating_add(saturating_add(14_000_000u64, db.reads(2)), db.writes(2))
    }

    fn cancel_scheduled_task_full(db: &DbWeight) -> (r: u64) {
        saturating_add(saturating_add(23_000_000u64, db.reads(2)), db.writes(2))
    }

    fn cancel_overflow_task(db: &DbWeight) -> (r: u64) {
        saturating_add(saturating_add(23_000_000u64, db.reads(3)), db.writes(2))
    }

    fn force_cancel_scheduled_task(db: &DbWeight) -> (r: u64) {
        saturating_add(saturating_add(14_000_000u64, db.reads(2)), db.writes(2))
    }

    fn force_cancel_scheduled_task_full(db: &DbWeight) -> (r: u64) {
        saturating_add(saturating_add(23_000_000u64, db.reads(2)), db.writes(2))
    }

    fn force_cancel_overflow_task(db: &DbWeight) -> (r: u64) {
        saturating_add(saturating_add(23_000_000u64, db.reads(3)), db.writes(2))
    }

    fn run_notify_task(db: &DbWeight) -> (r: u64) {
        7_000_000u64
    }

    fn run_native_transfer_task(db: &DbWeight) -> (r: u64) {
        saturating_add(saturating_add(26_000_000u64, db.reads(2)), db.writes(2))
    }

    fn update_task_queue_overhead(db: &DbWeight) -> (r: u64) {
        saturating_add(2_000_000u64, db.reads(1))
    }

    fn update_scheduled_task_queue(db: &DbWeight) -> (r: u64) {
        saturating_add(saturating_add(15_000_000u64, db.reads(3)), db.writes(3))
    }

    fn shift_missed_tasks(db: &DbWeight) -> (r: u64) {
        saturating_add(saturating_add(3_000_000u64, db.reads(1)), db.writes(1))
    }

    fn run_missed_tasks_many_found(db: &DbWeight, v: u32) -> (r: u64) {
        saturating_add(saturating_add(saturating_add(0, saturating_mul(10_187_000, v as u64)), db.reads(saturating_mul(1, v as u64))), db.writes(saturating_mul(1, v as u64)))
    }

    fn run_missed_tasks_many_missing(db: &DbWeight, v: u32) -> (r: u64) {
        saturating_add(saturating_add(0, saturating_mul(8_844_000, v as u64)), db.reads(saturating_mul(1, v as u64)))
    }

    fn run_tasks_many_found(db: &DbWeight, v: u32) -> (r: u64) {
        saturating_add(saturating_add(saturating_add(0, saturating_mul(29_531_000, v as u64)), db.reads(saturating_mul(3, v as u64))), db.writes(saturating_mul(3, v as u64)))
    }

    fn run_tasks_many_missing(db: &DbWeight, v: u32) -> (r: u64) {
        saturating_add(saturating_add(0, saturating_mul(9_000_000, v as u64)), db.reads(saturating_mul(1, v as u64)))
    }

    fn append_to_missed_tasks(db: &DbWeight, v: u32) -> (r: u64) {
        let w = saturating_add(1_396_000, saturating_mul(1_812_000, v as u64));
        let w = saturating_add(w, db.reads(1));
        let w = saturating_add(w, db.reads(saturating_mul(1, v as u64)));
        let w = saturating_add(w, db.writes(1));
        saturating_add(w, db.writes(saturating_mul(1, v as u64)))
    }
}

} // verus!
