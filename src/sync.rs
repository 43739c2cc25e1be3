//! Replication settings of a node: one writer, many readers.

use vstd::prelude::*;

verus! {

/// Role of a node.
#[derive(Clone, Copy, Debug, PartialEq, Eq, Structural)]
pub enum ReplicationRole {
    /// The single writer.
    Master,
    /// A reader that follows the writer's snapshots.
    Replica,
}

/// How a node syncs.
pub struct SyncConfig {
    pub role: ReplicationRole,
    /// Seconds between syncs.
    pub sync_interval_secs: u64,
    /// Snapshots to keep.
    pub snapshot_retention: usize,
    pub auto_sync_enabled: bool,
}

impl SyncConfig {
    /// Settings of the writer.
    pub fn master(sync_interval_secs: u64, snapshot_retention: usize) -> (r: Self)
        ensures
            r.role == ReplicationRole::Master,
            r.sync_interval_secs == sync_interval_secs,
            r.snapshot_retention == snapshot_retention,
            r.auto_sync_enabled,
    {
        SyncConfig { role: ReplicationRole::Master, sync_interval_secs, snapshot_retention, auto_sync_enabled: true }
    }

    /// Settings of a reader: it keeps no snapshots of its own.
    pub fn replica(sync_interval_secs: u64) -> (r: Self)
        ensures
            r.role == ReplicationRole::Replica,
            r.sync_interval_secs == sync_interval_secs,
            r.snapshot_retention == 0,
            r.auto_sync_enabled,
    {
        SyncConfig { role: ReplicationRole::Replica, sync_interval_secs, snapshot_retention: 0, auto_sync_enabled: true }
    }
}

} // verus!
