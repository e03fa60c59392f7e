//! The snapshot ledger: durable pointers to ticks, with soft deletion.
//!
//! Taking a snapshot always draws a fresh tick, so two snapshots of an
//! unchanged ledger stay distinguishable and no duplicate-detection branch
//! is needed; with every snapshot tick unique per owner, the deletion marker
//! of a soft-deleted snapshot is simply one.

use vstd::prelude::*;
use crate::items::lemma_wf_clock_bumped;
use crate::store::snap_ok;
use crate::store::Ledger;
use crate::store::SnapshotRow;
use crate::LedgerError;
use crate::OPEN_END;

verus! {

impl Ledger {
    /// Whether a live (not soft-deleted) snapshot of this owner points at
    /// tick `t`.
    pub open spec fn has_live_snapshot(self, owner: Seq<char>, t: u64) -> bool {
        exists|i: int|
            0 <= i < self.snapshots@.len() && (#[trigger] self.snapshots@[i]).owner@ == owner
                && self.snapshots@[i].tick == t && self.snapshots@[i].deletion_marker == 0
    }

    pub open spec fn live_snapshot_idx(self, owner: Seq<char>, t: u64) -> int {
        choose|i: int|
            0 <= i < self.snapshots@.len() && (#[trigger] self.snapshots@[i]).owner@ == owner
                && self.snapshots@[i].tick == t && self.snapshots@[i].deletion_marker == 0
    }

    /// Record a snapshot: draw a fresh tick and append a live row carrying
    /// the caller-computed net worth. The caller sums a reconstruction at
    /// the current tick; the figure is stored, not recomputed here.
    pub fn create_snapshot(
        &mut self,
        owner: &String,
        date_label: String,
        net_worth: i128,
        comment: String,
    ) -> (r: Result<usize, LedgerError>)
        requires
            old(self).wf(),
        ensures
            final(self).wf(),
            match r {
                Err(e) => {
                    &&& *final(self) == *old(self)
                    &&& e == LedgerError::StorageError
                    &&& !old(self).clock.has_owner(owner@) || old(self).clock.tick_of(owner@) + 1
                        >= OPEN_END
                },
                Ok(i) => {
                    &&& old(self).clock.has_owner(owner@)
                    &&& old(self).clock.tick_of(owner@) + 1 < OPEN_END
                    &&& i == old(self).snapshots@.len()
                    &&& final(self).snapshots@.len() == old(self).snapshots@.len() + 1
                    &&& final(self).snapshots@.subrange(0, i as int) == old(self).snapshots@
                    &&& final(self).snapshots@.last().tick == old(self).clock.tick_of(owner@) + 1
                    &&& final(self).snapshots@.last().owner@ == owner@
                    &&& final(self).snapshots@.last().date_label@ == date_label@
                    &&& final(self).snapshots@.last().net_worth == net_worth
                    &&& final(self).snapshots@.last().comment@ == comment@
                    &&& final(self).snapshots@.last().deletion_marker == 0
                    &&& final(self).items@ == old(self).items@
                    &&& final(self).categories@ == old(self).categories@
                    &&& final(self).clock.tick_of(owner@) == old(self).clock.tick_of(owner@) + 1
                    &&& forall|o: Seq<char>|
                        #[trigger] final(self).clock.has_owner(o) == old(self).clock.has_owner(o)
                    &&& forall|o: Seq<char>|
                        old(self).clock.has_owner(o) && o != owner@ ==> #[trigger] final(self).clock.tick_of(o) == old(self).clock.tick_of(o)
                },
            },
    {
        let ghost s0 = *self;
        let t = match self.clock.advance(owner) {
            Ok(t) => t,
            Err(e) => {
                return Err(e);
            },
        };
        let ghost s1 = *self;
        proof {
            lemma_wf_clock_bumped(s0, s1, owner@);
        }
        let i = self.snapshots.len();
        self.snapshots.push(
            SnapshotRow {
                tick: t,
                owner: owner.clone(),
                date_label,
                net_worth,
                comment,
                deletion_marker: 0,
            },
        );
        proof {
            let n = s1.snapshots@.len() as int;
            assert(self.snapshots@.subrange(0, n) =~= s1.snapshots@);
            assert forall|a: int| 0 <= a < self.snapshots@.len() implies snap_ok(
                #[trigger] self.snapshots@[a],
                self.clock,
            ) by {
                if a < n {
                    assert(self.snapshots@[a] == s1.snapshots@[a]);
                    assert(snap_ok(s1.snapshots@[a], s1.clock));
                }
            }
            assert forall|a: int, b: int|
                #![trigger self.snapshots@[a], self.snapshots@[b]]
                0 <= a < b < self.snapshots@.len() && self.snapshots@[a].owner@
                    == self.snapshots@[b].owner@ implies self.snapshots@[a].tick
                < self.snapshots@[b].tick by {
                if b == n {
                    assert(self.snapshots@[a] == s1.snapshots@[a]);
                    assert(snap_ok(s0.snapshots@[a], s0.clock));
                } else {
                    assert(self.snapshots@[a] == s1.snapshots@[a]);
                    assert(self.snapshots@[b] == s1.snapshots@[b]);
                }
            }
        }
        Ok(i)
    }

    /// Indices of this owner's live snapshots, in insertion order, which by
    /// the store invariant is ascending tick order.
    pub fn list_snapshots(&self, owner: &String) -> (r: Vec<usize>)
        requires
            self.wf(),
        ensures
            forall|a: int, b: int| 0 <= a < b < r@.len() ==> r@[a] < r@[b],
            forall|a: int|
                0 <= a < r@.len() ==> r@[a] < self.snapshots@.len() && (
                #[trigger] self.snapshots@[r@[a] as int]).owner@ == owner@
                    && self.snapshots@[r@[a] as int].deletion_marker == 0,
            forall|i: int|
                0 <= i < self.snapshots@.len() && (#[trigger] self.snapshots@[i]).owner@ == owner@
                    && self.snapshots@[i].deletion_marker == 0 ==> r@.contains(i as usize),
            forall|a: int, b: int|
                0 <= a < b < r@.len() ==> #[trigger] self.snapshots@[r@[a] as int].tick < #[trigger] self.snapshots@[r@[b] as int].tick,
    {
        let n = self.snapshots.len();
        let mut r: Vec<usize> = Vec::new();
        let mut i: usize = 0;
        while i < n
            invariant
                self.wf(),
                n == self.snapshots@.len(),
                i <= n,
                forall|a: int, b: int| 0 <= a < b < r@.len() ==> r@[a] < r@[b],
                forall|a: int| 0 <= a < r@.len() ==> r@[a] < i,
                forall|a: int|
                    0 <= a < r@.len() ==> (#[trigger] self.snapshots@[r@[a] as int]).owner@
                        == owner@ && self.snapshots@[r@[a] as int].deletion_marker == 0,
                forall|j: int|
                    0 <= j < i && (#[trigger] self.snapshots@[j]).owner@ == owner@
                        && self.snapshots@[j].deletion_marker == 0 ==> r@.contains(j as usize),
            decreases n - i,
        {
            let ghost r0 = r@;
            let s = &self.snapshots[i];
            if s.deletion_marker == 0 && s.owner == *owner {
                r.push(i);
                assert(r@[r@.len() - 1] == i);
            }
            proof {
                assert forall|j: int|
                    0 <= j < i + 1 && (#[trigger] self.snapshots@[j]).owner@ == owner@
                        && self.snapshots@[j].deletion_marker == 0 implies r@.contains(
                    j as usize,
                ) by {
                    if j < i {
                        let a = choose|a: int| 0 <= a < r0.len() && r0[a] == j as usize;
                        assert(r@[a] == j as usize);
                    } else {
                        assert(r@[r@.len() - 1] == j as usize);
                    }
                }
            }
            i = i + 1;
        }
        r
    }

    /// Soft-delete the live snapshot of this owner at tick `t` by raising
    /// its deletion marker from zero. Item rows are untouched: item history
    /// is independent of snapshot existence, so the tick can still be
    /// reconstructed afterwards.
    pub fn delete_snapshot(&mut self, owner: &String, t: u64) -> (r: Result<usize, LedgerError>)
        requires
            old(self).wf(),
        ensures
            final(self).wf(),
            match r {
                Err(e) => {
                    &&& e == LedgerError::NotFound
                    &&& !old(self).has_live_snapshot(owner@, t)
                    &&& *final(self) == *old(self)
                },
                Ok(i) => {
                    &&& old(self).has_live_snapshot(owner@, t)
                    &&& i == old(self).live_snapshot_idx(owner@, t)
                    &&& final(self).snapshots@.len() == old(self).snapshots@.len()
                    &&& forall|m: int|
                        0 <= m < old(self).snapshots@.len() && m != i ==> #[trigger] final(self).snapshots@[m] == old(self).snapshots@[m]
                    &&& final(self).snapshots@[i as int].deletion_marker == 1
                    &&& final(self).snapshots@[i as int].tick == old(self).snapshots@[i as int].tick
                    &&& final(self).snapshots@[i as int].owner@ == old(self).snapshots@[i as int].owner@
                    &&& final(self).snapshots@[i as int].date_label@ == old(self).snapshots@[i as int].date_label@
                    &&& final(self).snapshots@[i as int].net_worth == old(self).snapshots@[i as int].net_worth
                    &&& final(self).snapshots@[i as int].comment@ == old(self).snapshots@[i as int].comment@
                    &&& final(self).items@ == old(self).items@
                    &&& final(self).categories@ == old(self).categories@
                    &&& final(self).clock == old(self).clock
                },
            },
    {
        let n = self.snapshots.len();
        let mut i: usize = 0;
        while i < n
            invariant
                self.wf(),
                *self == *old(self),
                n == self.snapshots@.len(),
                i <= n,
                forall|k: int|
                    0 <= k < i ==> !((#[trigger] self.snapshots@[k]).owner@ == owner@
                        && self.snapshots@[k].tick == t && self.snapshots@[k].deletion_marker
                        == 0),
            decreases n - i,
        {
            let s = &self.snapshots[i];
            if s.deletion_marker == 0 && s.tick == t && s.owner == *owner {
                proof {
                    let j = self.live_snapshot_idx(owner@, t);
                    assert(0 <= j < self.snapshots@.len() && self.snapshots@[j].owner@ == owner@
                        && self.snapshots@[j].tick == t && self.snapshots@[j].deletion_marker
                        == 0);
                    if j != i {
                        assert(false);
                    }
                }
                let ghost pre = *self;
                let m = self.snapshots[i].deletion_marker;
                self.snapshots[i].deletion_marker = m + 1;
                proof {
                    assert forall|a: int| 0 <= a < self.snapshots@.len() implies snap_ok(
                        #[trigger] self.snapshots@[a],
                        self.clock,
                    ) by {
                        if a != i {
                            assert(self.snapshots@[a] == pre.snapshots@[a]);
                        }
                        assert(snap_ok(pre.snapshots@[a], pre.clock));
                    }
                    assert forall|a: int, b: int|
                        #![trigger self.snapshots@[a], self.snapshots@[b]]
                        0 <= a < b < self.snapshots@.len() && self.snapshots@[a].owner@
                            == self.snapshots@[b].owner@ implies self.snapshots@[a].tick
                        < self.snapshots@[b].tick by {
                        assert(pre.snapshots@[a].owner@ == self.snapshots@[a].owner@
                            && pre.snapshots@[a].tick == self.snapshots@[a].tick);
                        assert(pre.snapshots@[b].owner@ == self.snapshots@[b].owner@
                            && pre.snapshots@[b].tick == self.snapshots@[b].tick);
                    }
                }
                return Ok(i);
            }
            i = i + 1;
        }
        Err(LedgerError::NotFound)
    }
}

} // verus!
