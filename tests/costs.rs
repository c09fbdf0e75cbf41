use automation_time::migration::{
    MigrateToTransactInfo, MigrationError, OldXcmAssetConfig, XcmFlow, XcmTransactInfo,
};
use automation_time::weights::{AutomationWeight, DbWeight, WeightInfo};

#[test]
fn fixed_weights() {
    let db = DbWeight { read: 25_000_000, write: 100_000_000 };
    assert_eq!(AutomationWeight::schedule_notify_task_empty(&db), 38_000_000 + 5 * 25_000_000 + 4 * 100_000_000);
    assert_eq!(AutomationWeight::run_notify_task(&db), 7_000_000);
    assert_eq!(AutomationWeight::update_task_queue_overhead(&db), 2_000_000 + 25_000_000);
    assert_eq!(AutomationWeight::cancel_overflow_task(&db), 23_000_000 + 3 * 25_000_000 + 2 * 100_000_000);
}

#[test]
fn per_item_weights() {
    let db = DbWeight { read: 2, write: 3 };
    assert_eq!(AutomationWeight::run_tasks_many_found(&db, 4), 4 * 29_531_000 + 4 * 3 * 2 + 4 * 3 * 3);
    assert_eq!(AutomationWeight::run_missed_tasks_many_missing(&db, 0), 0);
    assert_eq!(AutomationWeight::append_to_missed_tasks(&db, 2), 1_396_000 + 2 * 1_812_000 + 2 + 2 * 2 + 3 + 2 * 3);
}

#[test]
fn weights_saturate() {
    let db = DbWeight { read: u64::MAX, write: 1 };
    assert_eq!(AutomationWeight::shift_missed_tasks(&db), u64::MAX);
    assert_eq!(db.reads_writes(2, 2), u64::MAX);
    assert_eq!(db.writes(7), 7);
}

#[test]
fn migration_keeps_keys_and_flows() {
    let old = vec![
        (1u32, OldXcmAssetConfig { fee_per_second: 10, instruction_weight: 5, flow: XcmFlow::Normal }),
        (2u32, OldXcmAssetConfig { fee_per_second: 20, instruction_weight: 6, flow: XcmFlow::Alternate }),
    ];
    let db = DbWeight { read: 10, write: 100 };
    let (new, w) = MigrateToTransactInfo::on_runtime_upgrade(&old, &db);
    assert_eq!(
        new,
        vec![(1, XcmTransactInfo { flow: XcmFlow::Normal }), (2, XcmTransactInfo { flow: XcmFlow::Alternate })]
    );
    assert_eq!(w, 2 * 10 + 2 * 100);
    assert_eq!(XcmTransactInfo::from(old[1].1), XcmTransactInfo { flow: XcmFlow::Alternate });
}

#[test]
fn migration_count_round_trip() {
    let state = MigrateToTransactInfo::pre_upgrade(0x0102_0304);
    assert_eq!(state, vec![4, 3, 2, 1]);
    assert_eq!(MigrateToTransactInfo::post_upgrade(&state, 0x0102_0304), Ok(()));
    assert_eq!(MigrateToTransactInfo::post_upgrade(&state, 7), Err(MigrationError::CountChanged));
    assert_eq!(MigrateToTransactInfo::post_upgrade(&vec![1, 2], 7), Err(MigrationError::MalformedState));
    assert_eq!(MigrateToTransactInfo::post_upgrade(&vec![], 0), Err(MigrationError::MalformedState));
}

#[test]
fn post_upgrade_ignores_trailing_bytes() {
    assert_eq!(MigrateToTransactInfo::post_upgrade(&vec![2, 0, 0, 0, 9], 2), Ok(()));
    assert_eq!(MigrateToTransactInfo::post_upgrade(&vec![2, 0, 0, 0, 9], 3), Err(MigrationError::CountChanged));
}
