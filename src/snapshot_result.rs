use vstd::prelude::*;

use crate::snapshot::SnapshotId;

verus! {

/// The progress of a capture: how many tables are done out of how many.
#[derive(Debug, PartialEq, Eq)]
pub struct SnapshotResult {
    pub snapshot_id: SnapshotId,
    pub percent: usize,
    pub done: usize,
    pub total: usize,
    pub status: String,
}

/// The percentage shown after `done` of `total` tables: whole tenths, and zero for
/// fewer than ten tables.
pub open spec fn percent_of(done: nat, total: nat) -> nat {
    if total < 10 {
        0
    } else {
        (done / (total / 10)) * 10
    }
}

impl SnapshotResult {
    /// A capture of `total` tables that has begun.
    pub fn init(snapshot_id: &SnapshotId, total: usize) -> (r: Self)
        ensures
            r.snapshot_id@ == snapshot_id@,
            r.percent == 0,
            r.done == 0,
            r.total == total,
            r.status@ == "processing"@,
    {
        Self { snapshot_id: snapshot_id.clone(), percent: 0, done: 0, total, status: String::from_str("processing") }
    }

    /// A capture that waits to begin.
    pub fn zero(snapshot_id: &SnapshotId) -> (r: Self)
        ensures
            r.snapshot_id@ == snapshot_id@,
            r.percent == 0,
            r.done == 0,
            r.total == 0,
            r.status@ == "queued"@,
    {
        Self { snapshot_id: snapshot_id.clone(), percent: 0, done: 0, total: 0, status: String::from_str("queued") }
    }

    /// One more table done.
    pub fn increment(&mut self)
        requires
            old(self).done < old(self).total,
        ensures
            final(self).done == old(self).done + 1,
            final(self).percent == percent_of(final(self).done as nat, old(self).total as nat),
            final(self).total == old(self).total,
            final(self).snapshot_id == old(self).snapshot_id,
            final(self).status == old(self).status,
    {
        self.done = self.done + 1;
        if self.total < 10 {
            self.percent = 0;
        } else {
            let step = self.total / 10;
            let q = self.done / step;
            assert(q <= 19) by (nonlinear_arith)
                requires
                    step == self.total / 10,
                    self.total >= 10,
                    q == self.done / step,
                    self.done <= self.total,
            {
                assert(step >= 1);
                assert(self.total < 10 * step + 10);
                assert(self.total < 20 * step);
                assert(q * step <= self.done);
                assert(q * step < 20 * step);
            }
            self.percent = q * 10;
        }
    }

    /// The capture finished.
    pub fn complete(&mut self)
        ensures
            final(self).percent == 100,
            final(self).status@ == "complete"@,
            final(self).done == old(self).done,
            final(self).total == old(self).total,
            final(self).snapshot_id == old(self).snapshot_id,
    {
        self.percent = 100;
        self.status = String::from_str("complete");
    }

    /// A capture that failed.
    pub fn failed(snapshot_id: &SnapshotId) -> (r: Self)
        ensures
            r.snapshot_id@ == snapshot_id@,
            r.percent == 0,
            r.done == 0,
            r.total == 0,
            r.status@ == "failed"@,
    {
        Self { snapshot_id: snapshot_id.clone(), percent: 0, done: 0, total: 0, status: String::from_str("failed") }
    }
}

} // verus!
