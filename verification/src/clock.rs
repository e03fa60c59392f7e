//! The logical clock: one monotonically increasing counter per owner. Every
//! mutation that creates or closes an item version, and every snapshot, draws
//! a fresh tick from it, so ticks give a total order to all structural
//! changes an owner ever made.

use vstd::prelude::*;
use crate::LedgerError;
use crate::OPEN_END;

verus! {

/// The persisted counter of one owner.
#[derive(Debug, Clone)]
pub struct ClockRow {
    pub owner: String,
    pub tick: u64,
}

/// The clock table: at most one row per owner. Ticks stay strictly below
/// `OPEN_END`, so a fresh tick never collides with the open-ended closing
/// timestamp of a live item version.
#[derive(Debug, Clone)]
pub struct Clock {
    pub rows: Vec<ClockRow>,
}

impl Clock {
    pub open spec fn wf(self) -> bool {
        &&& forall|i: int, j: int|
            0 <= i < j < self.rows@.len() ==> (#[trigger] self.rows@[i].owner@) != (
            #[trigger] self.rows@[j].owner@)
        &&& forall|i: int| 0 <= i < self.rows@.len() ==> (#[trigger] self.rows@[i].tick) < OPEN_END
    }

    pub open spec fn has_owner(self, o: Seq<char>) -> bool {
        exists|i: int| 0 <= i < self.rows@.len() && (#[trigger] self.rows@[i].owner@) == o
    }

    pub open spec fn idx_of(self, o: Seq<char>) -> int {
        choose|i: int| 0 <= i < self.rows@.len() && (#[trigger] self.rows@[i].owner@) == o
    }

    /// The tick most recently issued to this owner.
    pub open spec fn tick_of(self, o: Seq<char>) -> u64 {
        self.rows@[self.idx_of(o)].tick
    }

    pub fn new() -> (r: Clock)
        ensures
            r.wf(),
            r.rows@.len() == 0,
            forall|o: Seq<char>| !r.has_owner(o),
    {
        Clock { rows: Vec::new() }
    }

    fn find_owner(&self, owner: &String) -> (r: Option<usize>)
        requires
            self.wf(),
        ensures
            match r {
                Some(i) => self.has_owner(owner@) && i == self.idx_of(owner@) && i
                    < self.rows@.len(),
                None => !self.has_owner(owner@),
            },
    {
        let n = self.rows.len();
        let mut i: usize = 0;
        while i < n
            invariant
                self.wf(),
                n == self.rows@.len(),
                i <= n,
                forall|k: int| 0 <= k < i ==> (#[trigger] self.rows@[k].owner@) != owner@,
            decreases n - i,
        {
            if self.rows[i].owner == *owner {
                proof {
                    let j = self.idx_of(owner@);
                    assert(0 <= j < self.rows@.len() && self.rows@[j].owner@ == owner@);
                    assert(j == i);
                }
                return Some(i);
            }
            i = i + 1;
        }
        None
    }

    /// Make sure this owner has a clock row, starting the counter at zero.
    /// Registering an owner twice leaves the clock unchanged.
    pub fn register_owner(&mut self, owner: &String)
        requires
            old(self).wf(),
        ensures
            final(self).wf(),
            final(self).has_owner(owner@),
            old(self).has_owner(owner@) ==> *final(self) == *old(self),
            !old(self).has_owner(owner@) ==> {
                &&& final(self).rows@.len() == old(self).rows@.len() + 1
                &&& final(self).rows@.subrange(0, old(self).rows@.len() as int) == old(
                    self,
                ).rows@
                &&& final(self).rows@.last().owner@ == owner@
                &&& final(self).rows@.last().tick == 0
            },
            forall|o: Seq<char>|
                #[trigger] final(self).has_owner(o) == (old(self).has_owner(o) || o == owner@),
            forall|o: Seq<char>|
                old(self).has_owner(o) ==> #[trigger] final(self).tick_of(o) == old(self).tick_of(o),
            !old(self).has_owner(owner@) ==> final(self).tick_of(owner@) == 0,
    {
        match self.find_owner(owner) {
            Some(_) => (),
            None => {
                let ghost pre = *self;
                self.rows.push(ClockRow { owner: owner.clone(), tick: 0 });
                proof {
                    let n = pre.rows@.len() as int;
                    assert forall|o: Seq<char>| #[trigger]
                        self.has_owner(o) == (pre.has_owner(o) || o == owner@) by {
                        if self.has_owner(o) {
                            let i = choose|i: int|
                                0 <= i < self.rows@.len() && (#[trigger] self.rows@[i].owner@)
                                    == o;
                            if i < n {
                                assert(pre.rows@[i].owner@ == o);
                            }
                        }
                        if pre.has_owner(o) {
                            let i = choose|i: int|
                                0 <= i < pre.rows@.len() && (#[trigger] pre.rows@[i].owner@) == o;
                            assert(self.rows@[i].owner@ == o);
                        }
                        if o == owner@ {
                            assert(self.rows@[n].owner@ == o);
                        }
                    }
                    assert forall|o: Seq<char>| pre.has_owner(o) implies #[trigger] self.tick_of(o)
                        == pre.tick_of(o) by {
                        let i = pre.idx_of(o);
                        assert(0 <= i < n && pre.rows@[i].owner@ == o);
                        assert(self.rows@[i].owner@ == o);
                        let j = self.idx_of(o);
                        assert(0 <= j < self.rows@.len() && self.rows@[j].owner@ == o);
                        if j == n {
                            assert(o == owner@);
                            assert(pre.has_owner(owner@));
                        }
                        assert(j == i);
                    }
                    if !pre.has_owner(owner@) {
                        let j = self.idx_of(owner@);
                        assert(self.rows@[n].owner@ == owner@);
                        assert(0 <= j < self.rows@.len() && self.rows@[j].owner@ == owner@);
                        if j < n {
                            assert(pre.rows@[j].owner@ == owner@);
                        }
                        assert(j == n);
                    }
                }
            },
        }
    }

    /// Read the owner's current tick without advancing it.
    pub fn peek(&self, owner: &String) -> (r: Result<u64, LedgerError>)
        requires
            self.wf(),
        ensures
            match r {
                Ok(t) => self.has_owner(owner@) && t == self.tick_of(owner@),
                Err(e) => !self.has_owner(owner@) && e == LedgerError::StorageError,
            },
    {
        match self.find_owner(owner) {
            Some(i) => Ok(self.rows[i].tick),
            None => Err(LedgerError::StorageError),
        }
    }

    /// Issue a fresh tick: one above the stored value, which is persisted
    /// back, so no two calls for the same owner ever return the same tick.
    pub fn advance(&mut self, owner: &String) -> (r: Result<u64, LedgerError>)
        requires
            old(self).wf(),
        ensures
            final(self).wf(),
            match r {
                Ok(t) => {
                    &&& old(self).has_owner(owner@)
                    &&& old(self).tick_of(owner@) + 1 < OPEN_END
                    &&& t == old(self).tick_of(owner@) + 1
                    &&& final(self).tick_of(owner@) == t
                    &&& final(self).rows@.len() == old(self).rows@.len()
                    &&& forall|o: Seq<char>|
                        #[trigger] final(self).has_owner(o) == old(self).has_owner(o)
                    &&& forall|o: Seq<char>|
                        old(self).has_owner(o) && o != owner@ ==> #[trigger] final(self).tick_of(o) == old(self).tick_of(o)
                },
                Err(e) => {
                    &&& *final(self) == *old(self)
                    &&& e == LedgerError::StorageError
                    &&& (!old(self).has_owner(owner@) || old(self).tick_of(owner@) + 1
                        >= OPEN_END)
                },
            },
    {
        match self.find_owner(owner) {
            Some(i) => {
                let t = self.rows[i].tick;
                if t >= OPEN_END - 1 {
                    return Err(LedgerError::StorageError);
                }
                let ghost pre = *self;
                let fresh = t + 1;
                self.rows[i].tick = fresh;
                proof {
                    assert(self.rows@ =~= pre.rows@.update(
                        i as int,
                        ClockRow { owner: pre.rows@[i as int].owner, tick: fresh },
                    ));
                    assert(self.rows@[i as int].owner@ == owner@);
                    assert forall|o: Seq<char>| #[trigger]
                        self.has_owner(o) == pre.has_owner(o) by {
                        if self.has_owner(o) {
                            let k = choose|k: int|
                                0 <= k < self.rows@.len() && (#[trigger] self.rows@[k].owner@)
                                    == o;
                            assert(pre.rows@[k].owner@ == o);
                        }
                        if pre.has_owner(o) {
                            let k = choose|k: int|
                                0 <= k < pre.rows@.len() && (#[trigger] pre.rows@[k].owner@) == o;
                            assert(self.rows@[k].owner@ == o);
                        }
                    }
                    let j = self.idx_of(owner@);
                    assert(0 <= j < self.rows@.len() && self.rows@[j].owner@ == owner@);
                    assert(j == i);
                    assert forall|o: Seq<char>|
                        pre.has_owner(o) && o != owner@ implies #[trigger] self.tick_of(o)
                        == pre.tick_of(o) by {
                        let k = pre.idx_of(o);
                        assert(0 <= k < pre.rows@.len() && pre.rows@[k].owner@ == o);
                        assert(k != i);
                        assert(self.rows@[k].owner@ == o);
                        let m = self.idx_of(o);
                        assert(0 <= m < self.rows@.len() && self.rows@[m].owner@ == o);
                        assert(m == k);
                    }
                }
                Ok(fresh)
            },
            None => Err(LedgerError::StorageError),
        }
    }
}

} // verus!
