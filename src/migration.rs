//! Moving stored asset configurations to the transact-info record format.
use vstd::prelude::*;

use crate::weights::{DbWeight, sat_add, sat_mul};

verus! {

/// The instruction flow a destination chain expects.
#[derive(Clone, Copy, Debug, PartialEq, Eq, Structural)]
pub enum XcmFlow {
    Normal,
    Alternate,
}

/// An asset configuration in the record format before the migration.
#[derive(Clone, Copy, Debug, PartialEq, Eq, Structural)]
pub struct OldXcmAssetConfig {
    pub fee_per_second: u128,
    /// The cost of a single instruction on the destination chain.
    pub instruction_weight: u64,
    /// The instruction flow of the destination chain.
    pub flow: XcmFlow,
}

/// A destination's transact info, the record format after the migration.
#[derive(Clone, Copy, Debug, PartialEq, Eq, Structural)]
pub struct XcmTransactInfo {
    pub flow: XcmFlow,
}

impl From<OldXcmAssetConfig> for XcmTransactInfo {
    fn from(data: OldXcmAssetConfig) -> (r: XcmTransactInfo)
        ensures
            r == (XcmTransactInfo { flow: data.flow }),
    {
        XcmTransactInfo { flow: data.flow }
    }
}

impl vstd::std_specs::convert::FromSpecImpl<OldXcmAssetConfig> for XcmTransactInfo {
    open spec fn obeys_from_spec() -> bool {
        true
    }

    open spec fn from_spec(data: OldXcmAssetConfig) -> XcmTransactInfo {
        XcmTransactInfo { flow: data.flow }
    }
}

#[derive(Clone, Copy, Debug, PartialEq, Eq, Structural)]
pub enum MigrationError {
    /// The saved state is not a four-byte count.
    MalformedState,
    /// The number of records changed across the migration.
    CountChanged,
}

/// The number that the little-endian bytes `b` stand for.
pub open spec fn le_value(b: Seq<u8>) -> nat {
    b[0] as nat + 256 * b[1] as nat + 65536 * b[2] as nat + 16777216 * b[3] as nat
}

/// The migration from `OldXcmAssetConfig` records to `XcmTransactInfo` records.
pub struct MigrateToTransactInfo;

impl MigrateToTransactInfo {
    /// Rewrites every record, keeping its key and its flow, and returns the
    /// new records with the cost of one read and one write per record.
    pub fn on_runtime_upgrade<K: Copy>(old: &Vec<(K, OldXcmAssetConfig)>, db: &DbWeight) -> (r: (
        Vec<(K, XcmTransactInfo)>,
        u64,
    ))
        ensures
            r.0@.len() == old@.len(),
            forall|i: int|
                0 <= i < old@.len() ==> #[trigger] r.0@[i] == (old@[i].0, XcmTransactInfo { flow: old@[i].1.flow }),
            r.1 == sat_add(
                sat_mul(db.read as nat, old@.len()),
                sat_mul(db.write as nat, old@.len()),
            ),
    {
        let mut migrated: Vec<(K, XcmTransactInfo)> = Vec::new();
        let mut i: usize = 0;
        while i < old.len()
            invariant
                i <= old@.len(),
                migrated@.len() == i,
                forall|k: int|
                    0 <= k < i ==> #[trigger] migrated@[k] == (old@[k].0, XcmTransactInfo { flow: old@[k].1.flow }),
            decreases old.len() - i,
        {
            let (location, config) = old[i];
            let info = XcmTransactInfo::from(config);
            migrated.push((location, info));
            i = i + 1;
        }
        let n = old.len() as u64;
        let w = db.reads_writes(n, n);
        (migrated, w)
    }

    /// The state saved before the migration: the record count, as four
    /// little-endian bytes.
    pub fn pre_upgrade(prev_count: u32) -> (r: Vec<u8>)
        ensures
            r@.len() == 4,
            le_value(r@) == prev_count,
    {
        let b0 = (prev_count % 256) as u8;
        let b1 = (prev_count / 256 % 256) as u8;
        let b2 = (prev_count / 65536 % 256) as u8;
        let b3 = (prev_count / 16777216) as u8;
        let r = vec![b0, b1, b2, b3];
        assert(prev_count == b0 + 256 * b1 + 65536 * b2 + 16777216 * b3) by (nonlinear_arith)
            requires
                b0 == prev_count % 256,
                b1 == prev_count / 256 % 256,
                b2 == prev_count / 65536 % 256,
                b3 == prev_count / 16777216,
        ;
        r
    }

    /// Checks after the migration that the record count is the one saved in
    /// `state` before it: its first four bytes, read as little-endian; bytes
    /// after them are ignored.
    pub fn post_upgrade(state: &Vec<u8>, post_count: u32) -> (r: Result<(), MigrationError>)
        ensures
            state@.len() < 4 ==> r == Err::<(), MigrationError>(MigrationError::MalformedState),
            state@.len() >= 4 && le_value(state@.take(4)) != post_count ==> r == Err::<(), MigrationError>(
                MigrationError::CountChanged,
            ),
            state@.len() >= 4 && le_value(state@.take(4)) == post_count ==> r is Ok,
    {
        if state.len() < 4 {
            return Err(MigrationError::MalformedState);
        }
        let prev: u64 = state[0] as u64 + 256 * state[1] as u64 + 65536 * state[2] as u64 + 16777216
            * state[3] as u64;
        if prev == post_count as u64 {
            Ok(())
        } else {
            Err(MigrationError::CountChanged)
        }
    }
}

} // verus!
